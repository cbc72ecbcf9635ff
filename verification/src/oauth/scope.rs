//! The two scopes and what a grant of them allows.
use vstd::prelude::*;
use vstd::utf8::{is_ascii_chars, is_ascii_chars_encode_utf8};

use crate::auth::AccessScope;
use crate::oauth::OAuthError;
use crate::order::TextSet;
use crate::scan::{lemma_words_of_words, split_words, words};
use crate::text::{byte_len, joined, same_text, text_bytes_len, texts};

verus! {

pub const SCOPE_TECH: &'static str = "kb:tech";

pub const SCOPE_PRIVATE: &'static str = "kb:private";

/// Whether a scope is one of the two.
pub open spec fn is_known_scope(scope: Seq<char>) -> bool {
    scope == SCOPE_TECH@ || scope == SCOPE_PRIVATE@
}

/// Whether a set of scopes can be granted: it is not empty and holds none but
/// the two.
pub open spec fn grantable(scopes: Set<Seq<char>>) -> bool {
    scopes != Set::<Seq<char>>::empty() && forall|s: Seq<char>| #[trigger]
        scopes.contains(s) ==> is_known_scope(s)
}

/// The scopes that a text lists between white space.
pub open spec fn listed_scopes(text: Seq<char>) -> Set<Seq<char>> {
    words(text).to_set()
}

/// What a client that asks for scopes is granted; nothing where it asks for
/// none, for too much text, or for another scope than the two.
pub open spec fn requested_grant(text: Seq<char>) -> Option<Set<Seq<char>>> {
    if byte_len(text) <= 256 && grantable(listed_scopes(text)) {
        Some(listed_scopes(text))
    } else {
        None
    }
}

/// Both scopes.
pub open spec fn both_scopes() -> Set<Seq<char>> {
    Set::<Seq<char>>::empty().insert(SCOPE_TECH@).insert(SCOPE_PRIVATE@)
}

/// The most that a new client can ask for: the known scopes among those it
/// lists, or both where it lists none of them.
pub open spec fn lenient_grant(text: Seq<char>) -> Set<Seq<char>> {
    let known = listed_scopes(text).filter(|s: Seq<char>| is_known_scope(s));
    if known == Set::<Seq<char>>::empty() {
        both_scopes()
    } else {
        known
    }
}

/// Whether a grant of `held` covers `wanted`. The private scope covers the
/// other.
pub open spec fn grant_allows(held: Set<Seq<char>>, wanted: Set<Seq<char>>) -> bool {
    forall|s: Seq<char>| #[trigger]
        wanted.contains(s) ==> held.contains(s) || (s == SCOPE_TECH@ && held.contains(
            SCOPE_PRIVATE@,
        ))
}

/// What the holder of a grant may see.
pub open spec fn access_of(scopes: Set<Seq<char>>) -> AccessScope {
    if scopes.contains(SCOPE_PRIVATE@) {
        AccessScope::Private
    } else {
        AccessScope::Tech
    }
}

/// The scopes of a grant, the public one first.
pub open spec fn scope_values(scopes: Set<Seq<char>>) -> Seq<Seq<char>> {
    (if scopes.contains(SCOPE_TECH@) {
        seq![SCOPE_TECH@]
    } else {
        Seq::<Seq<char>>::empty()
    }) + (if scopes.contains(SCOPE_PRIVATE@) {
        seq![SCOPE_PRIVATE@]
    } else {
        Seq::<Seq<char>>::empty()
    })
}

/// The scopes of a grant as text, between spaces.
pub open spec fn scope_text(scopes: Set<Seq<char>>) -> Seq<char> {
    if scopes.contains(SCOPE_TECH@) && scopes.contains(SCOPE_PRIVATE@) {
        SCOPE_TECH@ + " "@ + SCOPE_PRIVATE@
    } else if scopes.contains(SCOPE_TECH@) {
        SCOPE_TECH@
    } else if scopes.contains(SCOPE_PRIVATE@) {
        SCOPE_PRIVATE@
    } else {
        Seq::empty()
    }
}

/// The two scopes are different.
pub proof fn lemma_scopes_differ()
    ensures
        SCOPE_TECH@ != SCOPE_PRIVATE@,
{
    reveal_strlit("kb:tech");
    reveal_strlit("kb:private");
    assert(SCOPE_TECH@.len() == 7);
    assert(SCOPE_PRIVATE@.len() == 10);
}

/// What a covered grant covers is covered too.
pub proof fn lemma_grant_allows_transitive(
    a: Set<Seq<char>>,
    b: Set<Seq<char>>,
    c: Set<Seq<char>>,
)
    requires
        grant_allows(a, b),
        grant_allows(b, c),
    ensures
        grant_allows(a, c),
{
    lemma_scopes_differ();
}

/// A covered grant never sees more than the grant that covers it.
pub proof fn lemma_allowed_access(held: Set<Seq<char>>, wanted: Set<Seq<char>>)
    requires
        grant_allows(held, wanted),
    ensures
        access_of(wanted) is Private ==> access_of(held) is Private,
{
    lemma_scopes_differ();
}

/// The scopes of a grant, sent as text, ask for that grant again.
pub proof fn lemma_scope_text_asks_for_the_grant(scopes: Set<Seq<char>>)
    requires
        grantable(scopes),
    ensures
        requested_grant(scope_text(scopes)) == Some(scopes),
{
    reveal_strlit("kb:tech");
    reveal_strlit("kb:private");
    reveal_strlit(" ");
    lemma_scopes_differ();
    let tech = SCOPE_TECH@;
    let private = SCOPE_PRIVATE@;
    let text = scope_text(scopes);
    lemma_words_of_words(tech, private);
    lemma_words_of_words(private, tech);
    assert(" "@ =~= seq![' ']);
    if scopes.contains(tech) && scopes.contains(private) {
        assert(words(text) == seq![tech, private]);
        assert(seq![tech, private][0] == tech && seq![tech, private][1] == private);
        assert(words(text).to_set() =~= scopes);
    } else {
        let only = if scopes.contains(tech) { tech } else { private };
        assert(scopes.contains(only)) by {
            if !scopes.contains(only) {
                assert(scopes =~= Set::<Seq<char>>::empty());
            }
        }
        assert(words(text) == seq![only]);
        assert(seq![only][0] == only);
        assert(words(text).to_set() =~= scopes);
    }
    assert forall|i: int| 0 <= i < text.len() implies text[i] as nat <= 127 by {
    }
    assert(is_ascii_chars(text));
    is_ascii_chars_encode_utf8(text);
}

/// A part of a grant is covered by it.
pub proof fn lemma_subset_allowed(held: Set<Seq<char>>, wanted: Set<Seq<char>>)
    requires
        wanted.subset_of(held),
    ensures
        grant_allows(held, wanted),
{
}

/// Scopes granted to a client.
pub struct ScopeGrant(TextSet);

impl View for ScopeGrant {
    type V = Set<Seq<char>>;

    closed spec fn view(&self) -> Set<Seq<char>> {
        self.0@
    }
}

impl ScopeGrant {
    pub fn parse(value: &str) -> (r: Result<ScopeGrant, OAuthError>)
        ensures
            match r {
                Ok(grant) => requested_grant(value@) == Some(grant@),
                Err(error) => error is InvalidScope && requested_grant(value@) is None,
            },
    {
        if text_bytes_len(value) > 256 {
            return Err(OAuthError::InvalidScope);
        }
        let grant = ScopeGrant(TextSet::from_texts(&split_words(value)));
        if grant.is_valid() {
            Ok(grant)
        } else {
            Err(OAuthError::InvalidScope)
        }
    }

    /// The grant of exactly these scopes, known or not.
    pub fn of_texts(list: &Vec<String>) -> (r: ScopeGrant)
        ensures
            r@ == texts(list@).to_set(),
    {
        ScopeGrant(TextSet::from_texts(list))
    }

    /// Both scopes: what a client can ask for must not stand in the way of a
    /// request for the private scope, since a client cannot know to ask for it
    /// at registration. The grant itself is the owner's choice.
    pub fn default_for_new_client() -> (r: ScopeGrant)
        ensures
            r@ == both_scopes(),
    {
        ScopeGrant(TextSet::new().with(SCOPE_TECH.to_owned()).with(SCOPE_PRIVATE.to_owned()))
    }

    /// Registrations list scopes that this server does not define; those are
    /// dropped.
    pub fn parse_lenient(value: &str) -> (r: ScopeGrant)
        ensures
            r@ == lenient_grant(value@),
    {
        let listed = split_words(value);
        let mut known = TextSet::new();
        let ghost keep = |s: Seq<char>| is_known_scope(s);
        let ghost all = texts(listed@);
        let mut i: usize = 0;
        proof {
            assert(all.take(0).to_set().filter(keep) =~= Set::<Seq<char>>::empty());
        }
        while i < listed.len()
            invariant
                i <= listed@.len(),
                all == texts(listed@),
                keep == (|s: Seq<char>| is_known_scope(s)),
                known@ == all.take(i as int).to_set().filter(keep),
            decreases listed@.len() - i,
        {
            proof {
                assert(all.take(i + 1) =~= all.take(i as int).push(all[i as int]));
                all.take(i as int).lemma_push_to_set_commute(all[i as int]);
                assert(all[i as int] == listed@[i as int]@);
            }
            if same_text(listed[i].as_str(), SCOPE_TECH) || same_text(
                listed[i].as_str(),
                SCOPE_PRIVATE,
            ) {
                known = known.with(listed[i].clone());
            }
            proof {
                assert(known@ =~= all.take(i + 1).to_set().filter(keep));
            }
            i = i + 1;
        }
        proof {
            assert(all.take(all.len() as int) =~= all);
        }
        if known.is_empty() {
            ScopeGrant::default_for_new_client()
        } else {
            ScopeGrant(known)
        }
    }

    pub fn access_scope(&self) -> (r: AccessScope)
        ensures
            r == access_of(self@),
    {
        if self.0.contains(SCOPE_PRIVATE) {
            AccessScope::Private
        } else {
            AccessScope::Tech
        }
    }

    pub fn allows(&self, requested: &ScopeGrant) -> (r: bool)
        ensures
            r == grant_allows(self@, requested@),
    {
        let list = requested.0.items();
        let ghost all = texts(list@);
        let mut i: usize = 0;
        while i < list.len()
            invariant
                i <= list@.len(),
                all == texts(list@),
                all.to_set() == requested@,
                forall|j: int|
                    0 <= j < i ==> self@.contains(#[trigger] all[j]) || (all[j] == SCOPE_TECH@
                        && self@.contains(SCOPE_PRIVATE@)),
            decreases list@.len() - i,
        {
            let scope = list[i].as_str();
            if !(self.0.contains(scope) || (same_text(scope, SCOPE_TECH) && self.0.contains(
                SCOPE_PRIVATE,
            ))) {
                proof {
                    assert(all[i as int] == list@[i as int]@);
                    assert(all.to_set().contains(all[i as int]));
                }
                return false;
            }
            i = i + 1;
        }
        proof {
            assert forall|s: Seq<char>| #[trigger] requested@.contains(s) implies self@.contains(s)
                || (s == SCOPE_TECH@ && self@.contains(SCOPE_PRIVATE@)) by {
                assert(all.to_set().contains(s));
                let j = choose|j: int| 0 <= j < all.len() && all[j] == s;
                assert(all[j] == s);
            }
        }
        true
    }

    pub fn is_subset_of(&self, requested: &ScopeGrant) -> (r: bool)
        ensures
            r == self@.subset_of(requested@),
    {
        self.0.is_subset(&requested.0)
    }

    pub fn is_valid(&self) -> (r: bool)
        ensures
            r == grantable(self@),
    {
        if self.0.is_empty() {
            return false;
        }
        let list = self.0.items();
        let ghost all = texts(list@);
        let mut i: usize = 0;
        while i < list.len()
            invariant
                i <= list@.len(),
                all == texts(list@),
                all.to_set() == self@,
                forall|j: int| 0 <= j < i ==> is_known_scope(#[trigger] all[j]),
            decreases list@.len() - i,
        {
            if !(same_text(list[i].as_str(), SCOPE_TECH) || same_text(
                list[i].as_str(),
                SCOPE_PRIVATE,
            )) {
                proof {
                    assert(all[i as int] == list@[i as int]@);
                    assert(all.to_set().contains(all[i as int]));
                }
                return false;
            }
            i = i + 1;
        }
        proof {
            assert forall|s: Seq<char>| #[trigger] self@.contains(s) implies is_known_scope(s) by {
                assert(all.to_set().contains(s));
                let j = choose|j: int| 0 <= j < all.len() && all[j] == s;
                assert(is_known_scope(all[j]));
            }
        }
        true
    }

    pub fn as_string(&self) -> (r: String)
        ensures
            r@ == scope_text(self@),
    {
        let tech = self.0.contains(SCOPE_TECH);
        let private = self.0.contains(SCOPE_PRIVATE);
        if tech && private {
            joined(joined(SCOPE_TECH, " ").as_str(), SCOPE_PRIVATE)
        } else if tech {
            SCOPE_TECH.to_owned()
        } else if private {
            SCOPE_PRIVATE.to_owned()
        } else {
            String::new()
        }
    }

    pub fn values(&self) -> (r: Vec<String>)
        ensures
            texts(r@) == scope_values(self@),
    {
        let mut out: Vec<String> = Vec::new();
        if self.0.contains(SCOPE_TECH) {
            out.push(SCOPE_TECH.to_owned());
        }
        if self.0.contains(SCOPE_PRIVATE) {
            out.push(SCOPE_PRIVATE.to_owned());
        }
        proof {
            assert(texts(out@) =~= scope_values(self@));
        }
        out
    }

    /// The granted scopes in ascending order.
    pub fn items(&self) -> (r: &Vec<String>)
        ensures
            texts(r@) == crate::order::ascending(self@),
            texts(r@).to_set() == self@,
    {
        self.0.items()
    }

    pub fn copy(&self) -> (r: ScopeGrant)
        ensures
            r@ == self@,
    {
        ScopeGrant(self.0.copy())
    }
}

} // verus!
