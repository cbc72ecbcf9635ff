//! Families of refresh tokens: which token of a family is the active one, until
//! when, and whether the family has been revoked. This is all that is kept on
//! disk.
use vstd::prelude::*;

use crate::crypto::constant_time_equal;
use crate::json::{
    distinct_names, field_trees, flag_field, flag_in, is_reserved, json_bytes, json_depth,
    json_parsed, json_read, json_tree, json_value, json_write, lemma_field_value,
    lemma_not_reserved, lemma_plain_deeper, name_texts, named_trees, number_field, number_in,
    object_field, object_in, ordinary, plain, record_fields, record_of, text_field, text_in,
    with_field, with_flag, with_number, with_text, Json, JsonTree,
};
use crate::oauth::OAuthError;
use crate::table::{
    distinct_keys, entries_map, entry_views, lemma_entries_map_value, unlapsed, Table, TableValue,
};
use crate::text::text_option;

verus! {

/// The version of the stored state.
pub const REFRESH_STATE_VERSION: u64 = 1;

/// The file in the state directory that holds the state.
pub const REFRESH_STATE_FILE: &'static str = "refresh-token-families-v1.json";

/// The largest state file that is read.
pub const MAX_REFRESH_STATE_BYTES: u64 = 1_048_576;

pub struct RefreshTokenFamily {
    pub active_token_hash: String,
    pub expires_at: u64,
    pub revoked: bool,
}

/// A family as mathematical values.
pub struct FamilyModel {
    pub active_token_hash: Seq<char>,
    pub expires_at: u64,
    pub revoked: bool,
}

impl View for RefreshTokenFamily {
    type V = FamilyModel;

    open spec fn view(&self) -> FamilyModel {
        FamilyModel {
            active_token_hash: self.active_token_hash@,
            expires_at: self.expires_at,
            revoked: self.revoked,
        }
    }
}

impl TableValue for RefreshTokenFamily {
    open spec fn lapses_at(value: FamilyModel) -> u64 {
        value.expires_at
    }

    fn expiry(&self) -> (r: u64) {
        self.expires_at
    }

    fn copy_value(&self) -> (r: RefreshTokenFamily) {
        RefreshTokenFamily {
            active_token_hash: self.active_token_hash.clone(),
            expires_at: self.expires_at,
            revoked: self.revoked,
        }
    }
}

/// The families that have not lapsed at `now`.
pub open spec fn living(families: Map<Seq<char>, FamilyModel>, now: u64) -> Map<
    Seq<char>,
    FamilyModel,
> {
    unlapsed::<Seq<char>, RefreshTokenFamily>(families, now)
}

/// Whether the tokens of a family are honoured at `now`.
pub open spec fn family_active(
    families: Map<Seq<char>, FamilyModel>,
    family_id: Seq<char>,
    now: u64,
) -> bool {
    families.dom().contains(family_id) && !families[family_id].revoked
        && families[family_id].expires_at > now
}

/// The families with a new one among them; nothing where the name is taken.
pub open spec fn with_family(
    families: Map<Seq<char>, FamilyModel>,
    family_id: Seq<char>,
    active_token_hash: Seq<char>,
    expires_at: u64,
    now: u64,
) -> Option<Map<Seq<char>, FamilyModel>> {
    if living(families, now).dom().contains(family_id) {
        None
    } else {
        Some(
            living(families, now).insert(
                family_id,
                FamilyModel { active_token_hash, expires_at, revoked: false },
            ),
        )
    }
}

/// Whether a token that is presented is the active one of its family.
pub open spec fn rotation_granted(
    families: Map<Seq<char>, FamilyModel>,
    family_id: Seq<char>,
    presented_token_hash: Seq<char>,
    now: u64,
) -> bool {
    family_active(families, family_id, now) && families[family_id].active_token_hash
        == presented_token_hash
}

/// The families after a token was presented. Lapsed families are gone. Where the
/// token was the active one, the next takes its place; where it was not, its
/// family is revoked.
pub open spec fn after_rotation(
    families: Map<Seq<char>, FamilyModel>,
    family_id: Seq<char>,
    presented_token_hash: Seq<char>,
    next_token_hash: Seq<char>,
    expires_at: u64,
    now: u64,
) -> Map<Seq<char>, FamilyModel> {
    let rest = living(families, now);
    if !rest.dom().contains(family_id) {
        rest
    } else if rotation_granted(families, family_id, presented_token_hash, now) {
        rest.insert(
            family_id,
            FamilyModel { active_token_hash: next_token_hash, expires_at, revoked: false },
        )
    } else {
        rest.insert(
            family_id,
            FamilyModel {
                active_token_hash: rest[family_id].active_token_hash,
                expires_at: rest[family_id].expires_at,
                revoked: true,
            },
        )
    }
}

/// Presenting a token that is not the active one of a living family revokes the
/// whole family: from then on no token of it is honoured.
pub proof fn lemma_replay_revokes_the_family(
    families: Map<Seq<char>, FamilyModel>,
    family_id: Seq<char>,
    presented_token_hash: Seq<char>,
    next_token_hash: Seq<char>,
    expires_at: u64,
    now: u64,
    later: u64,
)
    requires
        families.dom().contains(family_id) ==> families[family_id].active_token_hash
            != presented_token_hash,
    ensures
        !rotation_granted(families, family_id, presented_token_hash, now),
        !family_active(
            after_rotation(
                families,
                family_id,
                presented_token_hash,
                next_token_hash,
                expires_at,
                now,
            ),
            family_id,
            later,
        ),
{
}

/// A revoked family stays revoked, whatever token of whatever family is
/// presented.
pub proof fn lemma_revoked_stays_revoked(
    families: Map<Seq<char>, FamilyModel>,
    family_id: Seq<char>,
    other_id: Seq<char>,
    presented_token_hash: Seq<char>,
    next_token_hash: Seq<char>,
    expires_at: u64,
    now: u64,
    later: u64,
)
    requires
        families.dom().contains(family_id) && families[family_id].revoked,
    ensures
        !rotation_granted(families, family_id, presented_token_hash, now),
        !family_active(
            after_rotation(
                families,
                other_id,
                presented_token_hash,
                next_token_hash,
                expires_at,
                now,
            ),
            family_id,
            later,
        ),
{
}

/// A rotation makes the next token the active one and no other: the token it
/// replaces is not accepted again.
pub proof fn lemma_rotation_replaces_the_token(
    families: Map<Seq<char>, FamilyModel>,
    family_id: Seq<char>,
    presented_token_hash: Seq<char>,
    next_token_hash: Seq<char>,
    expires_at: u64,
    now: u64,
    later: u64,
)
    requires
        rotation_granted(families, family_id, presented_token_hash, now),
        next_token_hash != presented_token_hash,
    ensures
        ({
            let next = after_rotation(
                families,
                family_id,
                presented_token_hash,
                next_token_hash,
                expires_at,
                now,
            );
            &&& !rotation_granted(next, family_id, presented_token_hash, later)
            &&& rotation_granted(next, family_id, next_token_hash, later) == (expires_at > later)
        }),
{
}

/// What happens to one family leaves the others as they are.
pub proof fn lemma_other_families_keep_their_state(
    families: Map<Seq<char>, FamilyModel>,
    family_id: Seq<char>,
    other_id: Seq<char>,
    presented_token_hash: Seq<char>,
    next_token_hash: Seq<char>,
    expires_at: u64,
    now: u64,
    later: u64,
)
    requires
        other_id != family_id,
        now <= later,
    ensures
        family_active(
            after_rotation(
                families,
                family_id,
                presented_token_hash,
                next_token_hash,
                expires_at,
                now,
            ),
            other_id,
            later,
        ) == family_active(families, other_id, later),
        with_family(families, family_id, next_token_hash, expires_at, now) matches Some(next)
            ==> family_active(next, other_id, later) == family_active(families, other_id, later),
{
}

/// The JSON object of a family.
pub open spec fn family_fields(f: FamilyModel) -> Seq<(Seq<char>, JsonTree)> {
    seq![
        ("active_token_hash"@, JsonTree::Text(f.active_token_hash)),
        ("expires_at"@, JsonTree::Number(f.expires_at)),
        ("revoked"@, JsonTree::Bool(f.revoked)),
    ]
}

pub open spec fn family_names() -> Seq<Seq<char>> {
    seq!["active_token_hash"@, "expires_at"@, "revoked"@]
}

pub open spec fn family_in(tree: JsonTree) -> Option<FamilyModel> {
    match record_fields(tree, family_names()) {
        Some(f) => match (
            text_in(f, "active_token_hash"@),
            number_in(f, "expires_at"@),
            flag_in(f, "revoked"@),
        ) {
            (Some(active_token_hash), Some(expires_at), Some(revoked)) => Some(
                FamilyModel { active_token_hash, expires_at, revoked },
            ),
            _ => None,
        },
        None => None,
    }
}

pub open spec fn families_in(fields: Seq<(Seq<char>, JsonTree)>) -> Option<
    Map<Seq<char>, FamilyModel>,
>
    decreases fields.len(),
{
    if fields.len() == 0 {
        Some(Map::empty())
    } else {
        match (families_in(fields.drop_last()), family_in(fields.last().1)) {
            (Some(rest), Some(family)) => Some(rest.insert(fields.last().0, family)),
            _ => None,
        }
    }
}

/// The JSON objects of families under their names.
pub open spec fn named_families(entries: Seq<(Seq<char>, FamilyModel)>) -> Seq<
    (Seq<char>, JsonTree),
> {
    entries.map_values(
        |e: (Seq<char>, FamilyModel)| (e.0, JsonTree::Object(family_fields(e.1))),
    )
}

pub open spec fn state_fields(entries: Seq<(Seq<char>, FamilyModel)>) -> Seq<
    (Seq<char>, JsonTree),
> {
    seq![
        ("version"@, JsonTree::Number(REFRESH_STATE_VERSION)),
        ("families"@, JsonTree::Object(named_families(entries))),
    ]
}

pub open spec fn state_names() -> Seq<Seq<char>> {
    seq!["version"@, "families"@]
}

/// The families that a stored value holds; nothing where it is malformed or of
/// another version.
pub open spec fn state_in(tree: JsonTree) -> Option<Map<Seq<char>, FamilyModel>> {
    match record_fields(tree, state_names()) {
        Some(f) => match (number_in(f, "version"@), object_in(f, "families"@)) {
            (Some(version), Some(inner)) => if version == REFRESH_STATE_VERSION {
                families_in(inner)
            } else {
                None
            },
            _ => None,
        },
        None => None,
    }
}

/// The families that a state file holds.
pub open spec fn stored_families(bytes: Seq<u8>) -> Option<Map<Seq<char>, FamilyModel>> {
    match json_parsed(bytes) {
        Some(tree) => state_in(tree),
        None => None,
    }
}

/// Whether no family has a name that is reserved in JSON objects.
pub open spec fn ordinary_families(families: Map<Seq<char>, FamilyModel>) -> bool {
    forall|id: Seq<char>| #[trigger] families.dom().contains(id) ==> !is_reserved(id)
}

/// Whether bytes are the JSON text of families, in whatever order, and of nothing
/// else. Reading them gives families with ordinary names back.
pub open spec fn is_state_text(bytes: Seq<u8>, families: Map<Seq<char>, FamilyModel>) -> bool {
    &&& ordinary_families(families) ==> stored_families(bytes) == Some(families)
    &&& exists|entries: Seq<(Seq<char>, FamilyModel)>|
        distinct_keys(entries) && entries_map(entries) == families && bytes
            == #[trigger] json_bytes(JsonTree::Object(state_fields(entries)))
}

pub proof fn lemma_family_names(f: FamilyModel)
    ensures
        distinct_names(family_fields(f)),
        family_in(JsonTree::Object(family_fields(f))) == Some(f),
        plain(JsonTree::Object(family_fields(f)), 1),
        ordinary(JsonTree::Object(family_fields(f))),
{
    reveal_strlit("active_token_hash");
    lemma_not_reserved("active_token_hash"@);
    reveal_strlit("expires_at");
    reveal_strlit("revoked");
    assert("active_token_hash"@.len() == 17);
    assert("expires_at"@.len() == 10);
    assert("revoked"@.len() == 7);
    let fields = family_fields(f);
    lemma_field_value(fields, 0);
    lemma_field_value(fields, 1);
    lemma_field_value(fields, 2);
    assert forall|i: int| 0 <= i < fields.len() implies plain((#[trigger] fields[i]).1, 0)
        && ordinary(fields[i].1) by {}
}

proof fn lemma_families_in(entries: Seq<(Seq<char>, FamilyModel)>)
    ensures
        families_in(named_families(entries)) == Some(entries_map(entries)),
    decreases entries.len(),
{
    if entries.len() > 0 {
        lemma_families_in(entries.drop_last());
        assert(named_families(entries).drop_last() =~= named_families(entries.drop_last()));
        lemma_family_names(entries.last().1);
    }
}

/// Reading a stored state gives its families back.
pub proof fn lemma_state_read_back(entries: Seq<(Seq<char>, FamilyModel)>)
    requires
        distinct_keys(entries),
    ensures
        distinct_names(state_fields(entries)),
        distinct_names(named_families(entries)),
        state_in(JsonTree::Object(state_fields(entries))) == Some(entries_map(entries)),
        plain(JsonTree::Object(state_fields(entries)), json_depth()),
        ordinary_families(entries_map(entries)) ==> ordinary(
            JsonTree::Object(state_fields(entries)),
        ),
{
    reveal_strlit("version");
    lemma_not_reserved("version"@);
    reveal_strlit("families");
    assert("version"@.len() == 7);
    assert("families"@.len() == 8);
    let fields = state_fields(entries);
    let inner = named_families(entries);
    lemma_field_value(fields, 0);
    lemma_field_value(fields, 1);
    lemma_families_in(entries);
    assert forall|i: int| 0 <= i < inner.len() implies plain((#[trigger] inner[i]).1, 125)
        && ordinary(inner[i].1) by {
        lemma_family_names(entries[i].1);
        lemma_plain_deeper(inner[i].1, 1, 125);
    }
    assert(plain(JsonTree::Object(inner), 126));
    if ordinary_families(entries_map(entries)) {
        if entries.len() > 0 {
            lemma_entries_map_value(entries, 0);
            assert(inner[0].0 == entries[0].0);
        }
        assert(ordinary(JsonTree::Object(inner)));
        assert forall|i: int| 0 <= i < fields.len() implies ordinary((#[trigger] fields[i]).1) by {}
    }
    assert forall|i: int| 0 <= i < fields.len() implies plain((#[trigger] fields[i]).1, 126) by {}
}

impl RefreshTokenFamily {
    fn to_layer(&self) -> (r: Json)
        ensures
            r@ == JsonTree::Object(family_fields(self@)),
            distinct_names(family_fields(self@)),
            r is Object,
    {
        let fields: Vec<(String, serde_json::Value)> = Vec::new();
        proof {
            assert(field_trees(fields@) =~= Seq::empty());
        }
        let fields = with_text(fields, "active_token_hash", self.active_token_hash.as_str());
        let fields = with_number(fields, "expires_at", self.expires_at);
        let fields = with_flag(fields, "revoked", self.revoked);
        proof {
            assert(field_trees(fields@) =~= family_fields(self@));
            lemma_family_names(self@);
        }
        Json::Object(fields)
    }

    fn from_json(value: &serde_json::Value) -> (r: Option<RefreshTokenFamily>)
        ensures
            match r {
                Some(family) => family_in(json_tree(*value)) == Some(family@),
                None => family_in(json_tree(*value)) is None,
            },
    {
        let names: Vec<&'static str> = vec!["active_token_hash", "expires_at", "revoked"];
        proof {
            assert(name_texts(names@) =~= family_names());
        }
        let fields = match record_of(value, &names) {
            Some(fields) => fields,
            None => {
                return None;
            },
        };
        match (
            text_field(&fields, "active_token_hash"),
            number_field(&fields, "expires_at"),
            flag_field(&fields, "revoked"),
        ) {
            (Some(active_token_hash), Some(expires_at), Some(revoked)) => Some(
                RefreshTokenFamily { active_token_hash, expires_at, revoked },
            ),
            _ => None,
        }
    }
}

/// What was found where the state file should be.
pub enum StateFile {
    /// There is no such file.
    Missing,
    /// It could not be looked at.
    Unavailable,
    /// It is there: whether it is a regular file, its length, and its contents
    /// where it could be read.
    Found { regular: bool, len: u64, contents: Option<Vec<u8>> },
}

/// What was found where the state directory should be.
pub enum StateDirectory {
    /// It could not be made or looked at.
    Unavailable,
    /// It is something else than a directory.
    NotADirectory,
    /// It is a directory.
    Ready(StateFile),
}

/// Whether a file may be read as state.
pub open spec fn readable_state_file(regular: bool, len: u64) -> bool {
    regular && len <= MAX_REFRESH_STATE_BYTES
}

pub fn is_readable_state_file(regular: bool, len: u64) -> (r: bool)
    ensures
        r == readable_state_file(regular, len),
{
    regular && len <= MAX_REFRESH_STATE_BYTES
}

/// The families to start with.
pub open spec fn opened_state(directory: StateDirectory) -> Result<
    Map<Seq<char>, FamilyModel>,
    OAuthError,
> {
    match directory {
        StateDirectory::Unavailable => Err(OAuthError::Internal),
        StateDirectory::NotADirectory => Err(OAuthError::InvalidConfiguration),
        StateDirectory::Ready(StateFile::Missing) => Ok(Map::empty()),
        StateDirectory::Ready(StateFile::Unavailable) => Err(OAuthError::Internal),
        StateDirectory::Ready(StateFile::Found { regular, len, contents }) => {
            if !readable_state_file(regular, len) {
                Err(OAuthError::InvalidConfiguration)
            } else {
                match contents {
                    None => Err(OAuthError::Internal),
                    Some(bytes) => match stored_families(bytes@) {
                        Some(families) => Ok(families),
                        None => Err(OAuthError::InvalidConfiguration),
                    },
                }
            }
        },
    }
}

/// What a presented refresh token leads to.
pub struct Rotation {
    /// The families to store before answering; nothing where they stay as they
    /// are.
    pub next: Option<RefreshTokenStore>,
    /// Whether the token was the active one of its family.
    pub granted: bool,
}

/// The families of refresh tokens.
pub struct RefreshTokenStore {
    families: Table<String, RefreshTokenFamily>,
}

impl View for RefreshTokenStore {
    type V = Map<Seq<char>, FamilyModel>;

    closed spec fn view(&self) -> Map<Seq<char>, FamilyModel> {
        self.families@
    }
}

impl RefreshTokenStore {
    pub fn open(directory: StateDirectory) -> (r: Result<RefreshTokenStore, OAuthError>)
        ensures
            match r {
                Ok(store) => opened_state(directory) == Ok::<_, OAuthError>(store@),
                Err(error) => opened_state(directory) == Err::<
                    Map<Seq<char>, FamilyModel>,
                    OAuthError,
                >(error),
            },
    {
        match directory {
            StateDirectory::Unavailable => Err(OAuthError::Internal),
            StateDirectory::NotADirectory => Err(OAuthError::InvalidConfiguration),
            StateDirectory::Ready(file) => match file {
                StateFile::Missing => Ok(RefreshTokenStore { families: Table::new() }),
                StateFile::Unavailable => Err(OAuthError::Internal),
                StateFile::Found { regular, len, contents } => {
                    if !is_readable_state_file(regular, len) {
                        return Err(OAuthError::InvalidConfiguration);
                    }
                    match contents {
                        None => Err(OAuthError::Internal),
                        Some(bytes) => match RefreshTokenStore::from_bytes(bytes.as_slice()) {
                            Some(store) => Ok(store),
                            None => Err(OAuthError::InvalidConfiguration),
                        },
                    }
                },
            },
        }
    }

    /// The families that a state file holds.
    pub fn from_bytes(bytes: &[u8]) -> (r: Option<RefreshTokenStore>)
        ensures
            match r {
                Some(store) => stored_families(bytes@) == Some(store@),
                None => stored_families(bytes@) is None,
            },
    {
        let value = match json_read(bytes) {
            Some(value) => value,
            None => {
                return None;
            },
        };
        let names: Vec<&'static str> = vec!["version", "families"];
        proof {
            assert(name_texts(names@) =~= state_names());
        }
        let fields = match record_of(&value, &names) {
            Some(fields) => fields,
            None => {
                return None;
            },
        };
        let inner = match (number_field(&fields, "version"), object_field(&fields, "families")) {
            (Some(version), Some(inner)) => {
                if version != REFRESH_STATE_VERSION {
                    return None;
                }
                inner
            },
            _ => {
                return None;
            },
        };
        let ghost all = named_trees(inner@);
        let mut families: Table<String, RefreshTokenFamily> = Table::new();
        let mut i: usize = 0;
        proof {
            assert(all.take(0) =~= Seq::empty());
        }
        while i < inner.len()
            invariant
                i <= inner@.len(),
                all == named_trees(inner@),
                stored_families(bytes@) == families_in(all),
                families_in(all.take(i as int)) == Some(families@),
            decreases inner@.len() - i,
        {
            proof {
                assert(all.take(i + 1).drop_last() =~= all.take(i as int));
                assert(all.take(i + 1).last() == all[i as int]);
                assert(all[i as int].1 == json_tree(*inner@[i as int].1));
            }
            match RefreshTokenFamily::from_json(inner[i].1) {
                Some(family) => {
                    families = families.with(inner[i].0.to_owned(), family);
                },
                None => {
                    proof {
                        lemma_families_need_all(all, i as int);
                    }
                    return None;
                },
            }
            i = i + 1;
        }
        proof {
            assert(all.take(all.len() as int) =~= all);
        }
        Some(RefreshTokenStore { families })
    }

    /// What is written to the state file. Reading it gives the families back, as
    /// long as their names are ordinary.
    pub fn to_bytes(&self) -> (r: Option<Vec<u8>>)
        ensures
            r matches Some(bytes) && is_state_text(bytes@, self@),
    {
        let entries = self.families.entries();
        let ghost all = entry_views(entries@);
        let mut inner: Vec<(String, serde_json::Value)> = Vec::new();
        let mut i: usize = 0;
        proof {
            assert(field_trees(inner@) =~= Seq::empty());
            assert(named_families(all).take(0) =~= Seq::empty());
        }
        while i < entries.len()
            invariant
                i <= entries@.len(),
                all == entry_views(entries@),
                field_trees(inner@) == named_families(all).take(i as int),
            decreases entries@.len() - i,
        {
            let layer = entries[i].1.to_layer();
            inner = with_field(inner, entries[i].0.as_str(), layer);
            proof {
                assert(named_families(all).take(i + 1) =~= named_families(all).take(i as int).push(
                    named_families(all)[i as int],
                ));
                assert(all[i as int] == (entries@[i as int].0@, entries@[i as int].1@));
            }
            i = i + 1;
        }
        proof {
            assert(named_families(all).take(all.len() as int) =~= named_families(all));
            lemma_state_read_back(all);
        }
        let fields: Vec<(String, serde_json::Value)> = Vec::new();
        proof {
            assert(field_trees(fields@) =~= Seq::empty());
        }
        let fields = with_number(fields, "version", REFRESH_STATE_VERSION);
        let fields = with_field(fields, "families", Json::Object(inner));
        proof {
            assert(field_trees(fields@) =~= state_fields(all));
        }
        json_write(&json_value(Json::Object(fields)))
    }

    /// The families with a new one. They are to be stored before the family is
    /// used.
    pub fn create_family(
        &self,
        family_id: &str,
        active_token_hash: String,
        expires_at: u64,
        now: u64,
    ) -> (r: Result<RefreshTokenStore, OAuthError>)
        ensures
            match r {
                Ok(next) => with_family(
                    self@,
                    family_id@,
                    active_token_hash@,
                    expires_at,
                    now,
                ) == Some(next@),
                Err(error) => error is Entropy && with_family(
                    self@,
                    family_id@,
                    active_token_hash@,
                    expires_at,
                    now,
                ) is None,
            },
    {
        let (rest, _) = self.families.unlapsed(now);
        let key = family_id.to_owned();
        match rest.get(&key) {
            Some(_) => Err(OAuthError::Entropy),
            None => Ok(
                RefreshTokenStore {
                    families: rest.with(
                        key,
                        RefreshTokenFamily { active_token_hash, expires_at, revoked: false },
                    ),
                },
            ),
        }
    }

    /// What presenting a token leads to.
    pub fn rotate(
        &self,
        family_id: &str,
        presented_token_hash: &str,
        next_token_hash: String,
        expires_at: u64,
        now: u64,
    ) -> (r: Rotation)
        ensures
            r.granted == rotation_granted(self@, family_id@, presented_token_hash@, now),
            ({
                let after = after_rotation(
                    self@,
                    family_id@,
                    presented_token_hash@,
                    next_token_hash@,
                    expires_at,
                    now,
                );
                match r.next {
                    Some(next) => next@ == after,
                    None => after == self@ && !r.granted,
                }
            }),
            r.next is Some <==> r.granted || after_rotation(
                self@,
                family_id@,
                presented_token_hash@,
                next_token_hash@,
                expires_at,
                now,
            ) != self@,
    {
        let (rest, mut changed) = self.families.unlapsed(now);
        let key = family_id.to_owned();
        let family = match rest.get(&key) {
            Some(family) => family,
            None => {
                let next = if changed {
                    Some(RefreshTokenStore { families: rest })
                } else {
                    None
                };
                return Rotation { next, granted: false };
            },
        };
        let active = crate::text::bytes_of(family.active_token_hash.as_str());
        let presented = crate::text::bytes_of(presented_token_hash);
        let same = constant_time_equal(active.as_slice(), presented.as_slice());
        proof {
            crate::text::lemma_bytes_tell_texts_apart(
                family.active_token_hash@,
                presented_token_hash@,
            );
        }
        if family.revoked || !same {
            if !family.revoked {
                changed = true;
            }
            let revoked = RefreshTokenFamily {
                active_token_hash: family.active_token_hash.clone(),
                expires_at: family.expires_at,
                revoked: true,
            };
            proof {
                if family.revoked {
                    assert(rest@.insert(key@, revoked@) =~= rest@);
                } else {
                    assert(rest@.insert(key@, revoked@)[key@] != self@[key@]);
                }
                if rest@ != self@ && family.revoked {
                    assert(rest@.insert(key@, revoked@) == rest@);
                }
            }
            let next = if changed {
                Some(RefreshTokenStore { families: rest.with(key, revoked) })
            } else {
                None
            };
            return Rotation { next, granted: false };
        }
        let renewed = RefreshTokenFamily {
            active_token_hash: next_token_hash,
            expires_at,
            revoked: false,
        };
        Rotation {
            next: Some(RefreshTokenStore { families: rest.with(key, renewed) }),
            granted: true,
        }
    }

    pub fn is_active(&self, family_id: &str, now: u64) -> (r: bool)
        ensures
            r == family_active(self@, family_id@, now),
    {
        match self.families.get(&family_id.to_owned()) {
            Some(family) => !family.revoked && family.expires_at > now,
            None => false,
        }
    }

    pub fn copy(&self) -> (r: RefreshTokenStore)
        ensures
            r@ == self@,
    {
        RefreshTokenStore { families: self.families.copy() }
    }
}

proof fn lemma_families_need_all(fields: Seq<(Seq<char>, JsonTree)>, i: int)
    requires
        0 <= i < fields.len(),
        family_in(fields[i].1) is None,
    ensures
        families_in(fields) is None,
    decreases fields.len(),
{
    if i < fields.len() - 1 {
        lemma_families_need_all(fields.drop_last(), i);
    }
}

} // verus!
