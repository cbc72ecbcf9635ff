//! What the owner sees on the consent page, and what sending it back does.
use vstd::prelude::*;
use vstd::utf8::encode_utf8;

use crate::crypto::base64_url_of;
use crate::oauth::OAuthError;
use crate::oauth::claims::ApprovalModel;
use crate::oauth::client::registered_client;
use crate::oauth::flows::{
    consent, consent_page, consent_request, consent_request_claims, hash_of, response_parameters,
    signed_consent_request, ApprovalForm, AuthorizationQuery, OAuthModel, RedirectModel,
};
use crate::oauth::page::{
    approval_page, escaped, escaped_char, is_inert, scope_option, scope_options,
};
use crate::oauth::scope::{
    grantable, lemma_scope_text_asks_for_the_grant, lemma_scopes_differ, scope_text, scope_values,
};
use crate::oauth::signing::random_text;
use crate::text::byte_len;
use crate::web::url_with_pairs;

verus! {

/// A button that sends a form with `value` under `name`.
pub open spec fn submit_button(name: Seq<char>, value: Seq<char>, label: Seq<char>) -> Seq<char> {
    "<button type=\"submit\" name=\""@ + name + "\" value=\""@ + value + "\">"@ + label
        + "</button>"@
}

/// A field that is sent along unseen.
pub open spec fn hidden_field(name: Seq<char>, value: Seq<char>) -> Seq<char> {
    "<input type=\"hidden\" name=\""@ + name + "\" value=\""@ + value + "\">"@
}

/// One choice among several, with its label.
pub open spec fn choice(name: Seq<char>, value: Seq<char>, marks: Seq<char>) -> Seq<char> {
    "<label><input type=\"radio\" name=\""@ + name + "\" value=\""@ + value + "\""@ + marks + "> "@
        + value + "</label>"@
}

/// Whether a text stands somewhere on a page.
pub open spec fn shows(page: Seq<char>, part: Seq<char>) -> bool {
    exists|before: Seq<char>, rest: Seq<char>| page == #[trigger] (before + part + rest)
}

/// What is put at the end of a page is shown, and all that was shown before.
proof fn lemma_shows(page: Seq<char>, part: Seq<char>)
    ensures
        shows(page + part, part),
        forall|earlier: Seq<char>| shows(page, earlier) ==> #[trigger] shows(page + part, earlier),
{
    assert(page + part =~= page + part + Seq::empty());
    assert forall|earlier: Seq<char>| shows(page, earlier) implies #[trigger] shows(
        page + part,
        earlier,
    ) by {
        let (before, rest) = choose|before: Seq<char>, rest: Seq<char>|
            page == #[trigger] (before + earlier + rest);
        assert(page + part =~= before + earlier + (rest + part));
    }
}

proof fn lemma_buttons()
    ensures
        "</fieldset><button type=\"submit\" name=\"decision\" value=\"approve\">Approve</button><button type=\"submit\" name=\"decision\" value=\"deny\">Deny</button></form></main></body></html>"@
            == "</fieldset>"@ + submit_button("decision"@, "approve"@, "Approve"@) + submit_button(
            "decision"@,
            "deny"@,
            "Deny"@,
        ) + "</form></main></body></html>"@,
{
    reveal_strlit(
        "</fieldset><button type=\"submit\" name=\"decision\" value=\"approve\">Approve</button><button type=\"submit\" name=\"decision\" value=\"deny\">Deny</button></form></main></body></html>",
    );
    reveal_strlit("</fieldset>");
    reveal_strlit("<button type=\"submit\" name=\"");
    reveal_strlit("\" value=\"");
    reveal_strlit("\">");
    reveal_strlit("</button>");
    reveal_strlit("decision");
    reveal_strlit("approve");
    reveal_strlit("Approve");
    reveal_strlit("deny");
    reveal_strlit("Deny");
    reveal_strlit("</form></main></body></html>");
    let yes = submit_button("decision"@, "approve"@, "Approve"@);
    let no = submit_button("decision"@, "deny"@, "Deny"@);
    assert("</fieldset><button type=\"submit\" name=\"decision\" value=\"approve\">Approve</button><button type=\"submit\" name=\"decision\" value=\"deny\">Deny</button></form></main></body></html>"@
        =~= "</fieldset>"@ + yes + no + "</form></main></body></html>"@);
}

/// A text as it is read out of HTML, with the five entities that a page uses.
pub open spec fn read_html(html: Seq<char>) -> Seq<char>
    decreases html.len(),
{
    if html.len() == 0 {
        Seq::empty()
    } else if "&amp;"@.is_prefix_of(html) && html.len() >= 5 {
        seq!['&'] + read_html(html.skip(5))
    } else if "&lt;"@.is_prefix_of(html) && html.len() >= 4 {
        seq!['<'] + read_html(html.skip(4))
    } else if "&gt;"@.is_prefix_of(html) && html.len() >= 4 {
        seq!['>'] + read_html(html.skip(4))
    } else if "&quot;"@.is_prefix_of(html) && html.len() >= 6 {
        seq!['"'] + read_html(html.skip(6))
    } else if "&#x27;"@.is_prefix_of(html) && html.len() >= 6 {
        seq!['\''] + read_html(html.skip(6))
    } else {
        seq![html[0]] + read_html(html.skip(1))
    }
}

proof fn lemma_escaped_from_the_front(s: Seq<char>)
    requires
        s.len() > 0,
    ensures
        escaped(s) == escaped_char(s[0]) + escaped(s.skip(1)),
    decreases s.len(),
{
    if s.len() == 1 {
        assert(s.drop_last() =~= Seq::<char>::empty());
        assert(s.skip(1) =~= Seq::<char>::empty());
        assert(escaped(s.drop_last()) =~= Seq::<char>::empty());
        assert(escaped(s.skip(1)) =~= Seq::<char>::empty());
        assert(escaped(s) =~= escaped_char(s[0]) + escaped(s.skip(1)));
    } else {
        lemma_escaped_from_the_front(s.drop_last());
        assert(s.drop_last().skip(1) =~= s.skip(1).drop_last());
        assert(escaped(s) =~= escaped_char(s[0]) + escaped(s.skip(1)));
    }
}

/// What a page shows of a text reads as that text.
pub proof fn lemma_pages_show_texts_as_they_are(s: Seq<char>)
    ensures
        read_html(escaped(s)) == s,
    decreases s.len(),
{
    if s.len() == 0 {
        assert(escaped(s) =~= Seq::<char>::empty());
        assert(read_html(escaped(s)) =~= s);
    } else {
        reveal_strlit("&amp;");
        reveal_strlit("&lt;");
        reveal_strlit("&gt;");
        reveal_strlit("&quot;");
        reveal_strlit("&#x27;");
        lemma_escaped_from_the_front(s);
        lemma_pages_show_texts_as_they_are(s.skip(1));
        let first = escaped_char(s[0]);
        let html = escaped(s);
        assert(html.skip(first.len() as int) =~= escaped(s.skip(1)));
        assert(first.is_prefix_of(html));
        assert(html[0] == first[0]);
        assert(html[0] == '&' ==> html[1] == first[1]);
        if s[0] == '&' {
            assert(first =~= "&amp;"@);
        } else if s[0] == '<' {
            assert("&amp;"@[1] == 'a' && html[1] == 'l');
        } else if s[0] == '>' {
            assert("&amp;"@[1] == 'a' && html[1] == 'g' && "&lt;"@[1] == 'l');
        } else if s[0] == '"' {
            assert("&amp;"@[1] == 'a' && html[1] == 'q' && "&lt;"@[1] == 'l' && "&gt;"@[1] == 'g');
        } else if s[0] == '\'' {
            assert(html[1] == '#');
            assert("&amp;"@[1] == 'a' && "&lt;"@[1] == 'l' && "&gt;"@[1] == 'g' && "&quot;"@[1]
                == 'q');
        } else {
            assert(first =~= seq![s[0]]);
            assert("&amp;"@[0] == '&' && "&lt;"@[0] == '&' && "&gt;"@[0] == '&' && "&quot;"@[0]
                == '&' && "&#x27;"@[0] == '&');
            assert(html[0] != '&');
        }
        assert(read_html(html) =~= seq![s[0]] + read_html(html.skip(first.len() as int)));
        assert(seq![s[0]] + s.skip(1) =~= s);
    }
}

proof fn lemma_plain_text_is_not_changed(s: Seq<char>)
    requires
        forall|i: int| 0 <= i < s.len() ==> is_inert(#[trigger] s[i]) && s[i] != '&',
    ensures
        escaped(s) == s,
    decreases s.len(),
{
    if s.len() > 0 {
        lemma_plain_text_is_not_changed(s.drop_last());
        assert(is_inert(s[s.len() - 1]));
        assert(escaped(s) =~= s);
    }
}

/// The choices that a page offers among scopes: one for each of the two that was
/// asked for, the public one first, and the first of them chosen.
pub open spec fn scope_choices(scopes: Set<Seq<char>>) -> Seq<char> {
    let tech = scopes.contains("kb:tech"@);
    let private = scopes.contains("kb:private"@);
    (if tech {
        choice("scope"@, "kb:tech"@, " checked"@)
    } else {
        Seq::empty()
    }) + (if tech && private {
        "<br>"@
    } else {
        Seq::empty()
    }) + (if private {
        choice(
            "scope"@,
            "kb:private"@,
            if tech {
                Seq::empty()
            } else {
                " checked"@
            },
        )
    } else {
        Seq::empty()
    })
}

proof fn lemma_scope_option(scope: Seq<char>, chosen: bool)
    requires
        forall|i: int| 0 <= i < scope.len() ==> is_inert(#[trigger] scope[i]) && scope[i] != '&',
    ensures
        scope_option(scope, chosen) == choice(
            "scope"@,
            scope,
            if chosen {
                " checked"@
            } else {
                Seq::empty()
            },
        ),
{
    lemma_plain_text_is_not_changed(scope);
    reveal_strlit("<label><input type=\"radio\" name=\"scope\" value=\"");
    reveal_strlit("<label><input type=\"radio\" name=\"");
    reveal_strlit("scope");
    reveal_strlit("\" value=\"");
    reveal_strlit("\"");
    reveal_strlit(" checked");
    reveal_strlit("");
    reveal_strlit("> ");
    reveal_strlit("</label>");
    assert("<label><input type=\"radio\" name=\"scope\" value=\""@
        =~= "<label><input type=\"radio\" name=\""@ + "scope"@ + "\" value=\""@);
    assert(scope_option(scope, chosen) =~= choice(
        "scope"@,
        scope,
        if chosen {
            " checked"@
        } else {
            Seq::empty()
        },
    ));
}

proof fn lemma_scope_options(scopes: Set<Seq<char>>)
    ensures
        scope_options(scope_values(scopes)) == scope_choices(scopes),
{
    reveal_strlit("kb:tech");
    reveal_strlit("kb:private");
    reveal_strlit("");
    let tech = "kb:tech"@;
    let private = "kb:private"@;
    lemma_scope_option(tech, true);
    lemma_scope_option(private, true);
    lemma_scope_option(private, false);
    let none = Seq::<Seq<char>>::empty();
    assert(scope_options(none) =~= Seq::<char>::empty());
    assert(seq![tech].drop_last() =~= none);
    assert(seq![private].drop_last() =~= none);
    assert(seq![tech, private].drop_last() =~= seq![tech]);
    assert(scope_options(seq![tech]) =~= scope_option(tech, true));
    assert(scope_options(seq![private]) =~= scope_option(private, true));
    assert(scope_options(seq![tech, private]) =~= scope_option(tech, true) + "<br>"@ + scope_option(
        private,
        false,
    ));
    if scopes.contains(tech) && scopes.contains(private) {
        assert(scope_values(scopes) =~= seq![tech, private]);
    } else if scopes.contains(tech) {
        assert(scope_values(scopes) =~= seq![tech]);
    } else if scopes.contains(private) {
        assert(scope_values(scopes) =~= seq![private]);
    } else {
        assert(scope_values(scopes) =~= none);
    }
    assert(scope_options(scope_values(scopes)) =~= scope_choices(scopes));
}

/// The parts of a consent page, from the top to the choice of a scope.
spec fn page_front(
    request: Seq<char>,
    client_id: Seq<char>,
    redirect_uri: Seq<char>,
    resource: Seq<char>,
    scopes: Set<Seq<char>>,
) -> Seq<char> {
    let top =
        "<!doctype html><html lang=\"en\"><head><meta charset=\"utf-8\"><meta name=\"viewport\" content=\"width=device-width,initial-scale=1\"><title>Engram MCP authorization</title></head><body><main><h1>Authorize Engram MCP</h1>"@;
    let client = "<p>Client: <code>"@ + escaped(client_id) + "</code></p>"@;
    let redirect = "<p>Redirect URI: <code>"@ + escaped(redirect_uri) + "</code></p>"@;
    let target = "<p>Resource: <code>"@ + escaped(resource) + "</code></p>"@;
    let form = "<form method=\"post\" action=\"/oauth/authorize\">"@;
    let hidden = hidden_field("request"@, escaped(request));
    let owner = "<label>Owner secret "@;
    let secret = "<input type=\"password\" name=\"owner_secret\""@;
    let field = " autocomplete=\"current-password\" required></label><fieldset>"@;
    let legend = "<legend>Grant scope</legend>"@ + scope_choices(scopes) + "</fieldset>"@;
    top + client + redirect + target + form + hidden + owner + secret + field + legend
}

proof fn lemma_page_literals()
    ensures
        "<!doctype html><html lang=\"en\"><head><meta charset=\"utf-8\"><meta name=\"viewport\" content=\"width=device-width,initial-scale=1\"><title>Engram MCP authorization</title></head><body><main><h1>Authorize Engram MCP</h1><p>Client: <code>"@
        == "<!doctype html><html lang=\"en\"><head><meta charset=\"utf-8\"><meta name=\"viewport\" content=\"width=device-width,initial-scale=1\"><title>Engram MCP authorization</title></head><body><main><h1>Authorize Engram MCP</h1>"@ + "<p>Client: <code>"@,
        "</code></p><p>Redirect URI: <code>"@ == "</code></p>"@ + "<p>Redirect URI: <code>"@,
        "</code></p><p>Resource: <code>"@ == "</code></p>"@ + "<p>Resource: <code>"@,
        "</code></p><form method=\"post\" action=\"/oauth/authorize\"><input type=\"hidden\" name=\"request\" value=\""@
        == "</code></p>"@ + "<form method=\"post\" action=\"/oauth/authorize\">"@ + ("<input type=\"hidden\" name=\""@ + "request"@
        + "\" value=\""@),
        "\"><label>Owner secret <input type=\"password\" name=\"owner_secret\" autocomplete=\"current-password\" required></label><fieldset><legend>Grant scope</legend>"@
        == "\">"@ + "<label>Owner secret "@ + "<input type=\"password\" name=\"owner_secret\""@ + " autocomplete=\"current-password\" required></label><fieldset>"@ + "<legend>Grant scope</legend>"@,
{
    reveal_strlit(
        "<!doctype html><html lang=\"en\"><head><meta charset=\"utf-8\"><meta name=\"viewport\" content=\"width=device-width,initial-scale=1\"><title>Engram MCP authorization</title></head><body><main><h1>Authorize Engram MCP</h1><p>Client: <code>",
    );
    reveal_strlit(
        "<!doctype html><html lang=\"en\"><head><meta charset=\"utf-8\"><meta name=\"viewport\" content=\"width=device-width,initial-scale=1\"><title>Engram MCP authorization</title></head><body><main><h1>Authorize Engram MCP</h1>",
    );
    reveal_strlit("<p>Client: <code>");
    reveal_strlit("</code></p><p>Redirect URI: <code>");
    reveal_strlit("</code></p>");
    reveal_strlit("<p>Redirect URI: <code>");
    reveal_strlit("</code></p><p>Resource: <code>");
    reveal_strlit("<p>Resource: <code>");
    reveal_strlit(
        "</code></p><form method=\"post\" action=\"/oauth/authorize\"><input type=\"hidden\" name=\"request\" value=\"",
    );
    reveal_strlit("<form method=\"post\" action=\"/oauth/authorize\">");
    reveal_strlit("<input type=\"hidden\" name=\"");
    reveal_strlit("request");
    reveal_strlit("\" value=\"");
    reveal_strlit("\">");
    reveal_strlit(
        "\"><label>Owner secret <input type=\"password\" name=\"owner_secret\" autocomplete=\"current-password\" required></label><fieldset><legend>Grant scope</legend>",
    );
    reveal_strlit("<label>Owner secret ");
    reveal_strlit("<input type=\"password\" name=\"owner_secret\"");
    reveal_strlit(" autocomplete=\"current-password\" required></label><fieldset>");
    reveal_strlit("<legend>Grant scope</legend>");
    assert("<!doctype html><html lang=\"en\"><head><meta charset=\"utf-8\"><meta name=\"viewport\" content=\"width=device-width,initial-scale=1\"><title>Engram MCP authorization</title></head><body><main><h1>Authorize Engram MCP</h1><p>Client: <code>"@
        =~= "<!doctype html><html lang=\"en\"><head><meta charset=\"utf-8\"><meta name=\"viewport\" content=\"width=device-width,initial-scale=1\"><title>Engram MCP authorization</title></head><body><main><h1>Authorize Engram MCP</h1>"@ + "<p>Client: <code>"@);
    assert("</code></p><p>Redirect URI: <code>"@ =~= "</code></p>"@ + "<p>Redirect URI: <code>"@);
    assert("</code></p><p>Resource: <code>"@ =~= "</code></p>"@ + "<p>Resource: <code>"@);
    assert("</code></p><form method=\"post\" action=\"/oauth/authorize\"><input type=\"hidden\" name=\"request\" value=\""@
        =~= "</code></p>"@ + "<form method=\"post\" action=\"/oauth/authorize\">"@ + ("<input type=\"hidden\" name=\""@ + "request"@
        + "\" value=\""@));
    assert("\"><label>Owner secret <input type=\"password\" name=\"owner_secret\" autocomplete=\"current-password\" required></label><fieldset><legend>Grant scope</legend>"@
        =~= "\">"@ + "<label>Owner secret "@ + "<input type=\"password\" name=\"owner_secret\""@ + " autocomplete=\"current-password\" required></label><fieldset>"@ + "<legend>Grant scope</legend>"@);
}

proof fn lemma_regrouped(
    front: Seq<char>,
    opening: Seq<char>,
    text: Seq<char>,
    closing: Seq<char>,
    rest: Seq<char>,
)
    ensures
        front + opening + text + (closing + rest) == front + (opening + text + closing) + rest,
{
    assert(front + opening + text + (closing + rest) =~= front + (opening + text + closing) + rest);
}

proof fn lemma_page_in_parts(
    request: Seq<char>,
    client_id: Seq<char>,
    redirect_uri: Seq<char>,
    resource: Seq<char>,
    scopes: Set<Seq<char>>,
)
    ensures
        approval_page(request, client_id, redirect_uri, resource, scopes) == page_front(
            request,
            client_id,
            redirect_uri,
            resource,
            scopes,
        ) + (submit_button("decision"@, "approve"@, "Approve"@) + submit_button(
            "decision"@,
            "deny"@,
            "Deny"@,
        ) + "</form></main></body></html>"@),
{
    lemma_page_literals();
    lemma_scope_options(scopes);
    lemma_buttons();
    let page = approval_page(request, client_id, redirect_uri, resource, scopes);
    let top =
        "<!doctype html><html lang=\"en\"><head><meta charset=\"utf-8\"><meta name=\"viewport\" content=\"width=device-width,initial-scale=1\"><title>Engram MCP authorization</title></head><body><main><h1>Authorize Engram MCP</h1>"@;
    let client = "<p>Client: <code>"@ + escaped(client_id) + "</code></p>"@;
    let redirect = "<p>Redirect URI: <code>"@ + escaped(redirect_uri) + "</code></p>"@;
    let target = "<p>Resource: <code>"@ + escaped(resource) + "</code></p>"@;
    let form = "<form method=\"post\" action=\"/oauth/authorize\">"@;
    let hidden = hidden_field("request"@, escaped(request));
    let owner = "<label>Owner secret "@;
    let secret = "<input type=\"password\" name=\"owner_secret\""@;
    let field = " autocomplete=\"current-password\" required></label><fieldset>"@;
    let legend = "<legend>Grant scope</legend>"@ + scope_choices(scopes) + "</fieldset>"@;
    let buttons = submit_button("decision"@, "approve"@, "Approve"@) + submit_button(
        "decision"@,
        "deny"@,
        "Deny"@,
    ) + "</form></main></body></html>"@;
    let ends = "</code></p>"@;
    let hides = "<input type=\"hidden\" name=\""@ + "request"@ + "\" value=\""@;
    let asks = "<legend>Grant scope</legend>"@;
    lemma_regrouped(top, "<p>Client: <code>"@, escaped(client_id), ends, "<p>Redirect URI: <code>"@);
    lemma_regrouped(
        top + client,
        "<p>Redirect URI: <code>"@,
        escaped(redirect_uri),
        ends,
        "<p>Resource: <code>"@,
    );
    let told = top + client + redirect;
    lemma_regrouped(told, "<p>Resource: <code>"@, escaped(resource), ends, form + hides);
    assert(ends + form + hides =~= ends + (form + hides));
    assert(told + target + (form + hides) =~= told + target + form + hides);
    let upper = told + target + form;
    let middle = owner + secret + field;
    assert("\">"@ + owner + secret + field + asks =~= "\">"@ + (middle + asks));
    lemma_regrouped(upper, hides, escaped(request), "\">"@, middle + asks);
    assert(upper + hidden + (middle + asks) =~= upper + hidden + owner + secret + field + asks);
    let lower = upper + hidden + owner + secret + field;
    let rest = submit_button("decision"@, "approve"@, "Approve"@) + submit_button(
        "decision"@,
        "deny"@,
        "Deny"@,
    ) + "</form></main></body></html>"@;
    assert("</fieldset>"@ + submit_button("decision"@, "approve"@, "Approve"@) + submit_button(
        "decision"@,
        "deny"@,
        "Deny"@,
    ) + "</form></main></body></html>"@ =~= "</fieldset>"@ + rest);
    lemma_regrouped(lower, asks, scope_choices(scopes), "</fieldset>"@, rest);
    assert(page == lower + legend + buttons);
}

/// What the owner is shown: who asks, where they are sent back to and for what
/// resource; and a form for the authorization endpoint that sends the request, the
/// owner's secret, a choice among the scopes asked for, and a decision.
pub proof fn lemma_page_shows_the_request(
    request: Seq<char>,
    client_id: Seq<char>,
    redirect_uri: Seq<char>,
    resource: Seq<char>,
    scopes: Set<Seq<char>>,
)
    ensures
        ({
            let page = approval_page(request, client_id, redirect_uri, resource, scopes);
            &&& shows(page, "<p>Client: <code>"@ + escaped(client_id) + "</code></p>"@)
            &&& shows(page, "<p>Redirect URI: <code>"@ + escaped(redirect_uri) + "</code></p>"@)
            &&& shows(page, "<p>Resource: <code>"@ + escaped(resource) + "</code></p>"@)
            &&& shows(page, "<form method=\"post\" action=\"/oauth/authorize\">"@)
            &&& shows(page, hidden_field("request"@, escaped(request)))
            &&& shows(page, "<input type=\"password\" name=\"owner_secret\""@)
            &&& shows(
                page,
                "<legend>Grant scope</legend>"@ + scope_choices(scopes) + "</fieldset>"@,
            )
            &&& exists|front: Seq<char>|
                page == #[trigger] (front + (submit_button("decision"@, "approve"@, "Approve"@)
                    + submit_button("decision"@, "deny"@, "Deny"@)
                    + "</form></main></body></html>"@))
        }),
{
    lemma_page_in_parts(request, client_id, redirect_uri, resource, scopes);
    let page = approval_page(request, client_id, redirect_uri, resource, scopes);
    let top =
        "<!doctype html><html lang=\"en\"><head><meta charset=\"utf-8\"><meta name=\"viewport\" content=\"width=device-width,initial-scale=1\"><title>Engram MCP authorization</title></head><body><main><h1>Authorize Engram MCP</h1>"@;
    let client = "<p>Client: <code>"@ + escaped(client_id) + "</code></p>"@;
    let redirect = "<p>Redirect URI: <code>"@ + escaped(redirect_uri) + "</code></p>"@;
    let target = "<p>Resource: <code>"@ + escaped(resource) + "</code></p>"@;
    let form = "<form method=\"post\" action=\"/oauth/authorize\">"@;
    let hidden = hidden_field("request"@, escaped(request));
    let owner = "<label>Owner secret "@;
    let secret = "<input type=\"password\" name=\"owner_secret\""@;
    let field = " autocomplete=\"current-password\" required></label><fieldset>"@;
    let legend = "<legend>Grant scope</legend>"@ + scope_choices(scopes) + "</fieldset>"@;
    let buttons = submit_button("decision"@, "approve"@, "Approve"@) + submit_button(
        "decision"@,
        "deny"@,
        "Deny"@,
    ) + "</form></main></body></html>"@;
    lemma_shows(top, client);
    lemma_shows(top + client, redirect);
    lemma_shows(top + client + redirect, target);
    lemma_shows(top + client + redirect + target, form);
    lemma_shows(top + client + redirect + target + form, hidden);
    let upper = top + client + redirect + target + form + hidden;
    lemma_shows(upper, owner);
    lemma_shows(upper + owner, secret);
    lemma_shows(upper + owner + secret, field);
    lemma_shows(upper + owner + secret + field, legend);
    let front = upper + owner + secret + field + legend;
    lemma_shows(front, buttons);
    assert(page == front + buttons);
}

/// Whether an answer to a consent page sends back the request that the page
/// carries, the owner's secret, and one of the scopes that it offers.
pub open spec fn sends_back(m: OAuthModel, request: ApprovalModel, form: ApprovalForm) -> bool {
    &&& form.request@ == signed_consent_request(m.key, request)
    &&& byte_len(form.request@) <= 8_192
    &&& encode_utf8(form.owner_secret@) == m.owner_secret
    &&& byte_len(form.owner_secret@) <= 8_192
    &&& form.scope@ == "kb:tech"@ || form.scope@ == "kb:private"@
    &&& request.requested_scopes.contains(form.scope@)
}

/// The button labelled Approve sends the decision by which the request is approved,
/// and the one labelled Deny the decision by which it is denied; they are the last
/// of the page. What is approved is the scope that was chosen and no other, for the
/// client, the redirect URI and the challenge of the query, and the code lapses
/// when its lifetime is over. Nothing is handed out on a denial. Either can be sent
/// within five minutes of the page.
pub proof fn lemma_buttons_do_what_they_say(
    m: OAuthModel,
    query: AuthorizationQuery,
    now: u64,
    request: ApprovalModel,
    form: ApprovalForm,
    later: u64,
    drawn: [u8; 32],
)
    requires
        consent_request(m, query, now) == Ok::<ApprovalModel, OAuthError>(request),
        consent_request_claims(m.key, signed_consent_request(m.key, request)) == Some(request),
        sends_back(m, request, form),
        now + 300 <= u64::MAX,
        later < now + 300,
        later + m.code_ttl <= u64::MAX,
    ensures
        exists|front: Seq<char>, yes: Seq<char>, no: Seq<char>|
            {
                &&& consent_page(m.key, request) == #[trigger] (front + (submit_button(
                    "decision"@,
                    yes,
                    "Approve"@,
                ) + submit_button("decision"@, no, "Deny"@) + "</form></main></body></html>"@))
                &&& form.decision@ == yes ==> {
                    let approved = consent(m, form, later, Some(drawn));
                    &&& approved.result matches Ok(RedirectModel::Approved(_))
                    &&& exists|hash: Seq<u8>|
                        {
                            let code = approved.codes[hash];
                            &&& #[trigger] approved.codes.dom().contains(hash)
                            &&& code.client_id == query.client_id@
                            &&& code.redirect_uri == query.redirect_uri@
                            &&& code.resource == query.resource@
                            &&& code.code_challenge == query.code_challenge@
                            &&& code.expires_at == later + m.code_ttl
                            &&& code.scopes == Set::<Seq<char>>::empty().insert(form.scope@)
                        }
                }
                &&& form.decision@ == no ==> {
                    let denied = consent(m, form, later, Some(drawn));
                    &&& denied.result matches Ok(RedirectModel::Denied(_))
                    &&& denied.codes == m.codes
                }
            },
{
    reveal_strlit("approve");
    reveal_strlit("deny");
    assert("approve"@.len() == 7 && "deny"@.len() == 4);
    let page = consent_page(m.key, request);
    lemma_page_in_parts(
        signed_consent_request(m.key, request),
        request.client_id,
        request.redirect_uri,
        request.resource,
        request.requested_scopes,
    );
    let front = page_front(
        signed_consent_request(m.key, request),
        request.client_id,
        request.redirect_uri,
        request.resource,
        request.requested_scopes,
    );
    assert(page == front + (submit_button("decision"@, "approve"@, "Approve"@) + submit_button(
        "decision"@,
        "deny"@,
        "Deny"@,
    ) + "</form></main></body></html>"@));
    let chosen = Set::<Seq<char>>::empty().insert(form.scope@);
    lemma_scopes_differ();
    assert(chosen.contains(form.scope@));
    assert(grantable(chosen));
    lemma_scope_text_asks_for_the_grant(chosen);
    assert(scope_text(chosen) == form.scope@);
    assert(chosen.subset_of(request.requested_scopes));
    let code = random_text("ac_"@, drawn@);
    if form.decision@ == "approve"@ {
        let approved = consent(m, form, later, Some(drawn));
        assert(approved.codes.dom().contains(hash_of(m.key, code)));
    }
}

/// Where the browser is sent with the owner's answer: back to the redirect URI of
/// the request, with the issuer, the state where the client gave one, and either
/// the code or that the owner denied it.
pub proof fn lemma_redirects_say_what_was_decided(
    m: OAuthModel,
    request: ApprovalModel,
    form: ApprovalForm,
    now: u64,
    drawn: [u8; 32],
)
    requires
        consent_request_claims(m.key, form.request@) == Some(request),
    ensures
        ({
            let given = match request.state {
                Some(state) => seq![("iss"@, m.issuer), ("state"@, state)],
                None => seq![("iss"@, m.issuer)],
            };
            match consent(m, form, now, Some(drawn)).result {
                Ok(RedirectModel::Approved(url)) => url == url_with_pairs(
                    request.redirect_uri,
                    given + seq![("code"@, "ac_"@ + base64_url_of(drawn@))],
                )->Some_0,
                Ok(RedirectModel::Denied(url)) => url == url_with_pairs(
                    request.redirect_uri,
                    given + seq![("error"@, "access_denied"@)],
                )->Some_0,
                Err(_) => consent(m, form, now, Some(drawn)).codes == m.codes,
            }
        }),
{
    let given = match request.state {
        Some(state) => seq![("iss"@, m.issuer), ("state"@, state)],
        None => seq![("iss"@, m.issuer)],
    };
    let code = "ac_"@ + base64_url_of(drawn@);
    assert(response_parameters(m, request.state, Some(code), None) =~= given + seq![
        ("code"@, code),
    ]);
    assert(response_parameters(m, request.state, None, Some("access_denied"@)) =~= given + seq![
        ("error"@, "access_denied"@),
    ]);
}

/// What an answer to a consent page comes to that does not approve. One that sends
/// back no request of this server, or a lapsed one, is no valid request. A decision
/// other than the two, or an approval without the owner's secret, is not the owner's.
/// A scope that was not asked for is not granted. Nothing is handed out, whichever it
/// is.
pub proof fn lemma_which_answers_are_refused(
    m: OAuthModel,
    form: ApprovalForm,
    now: u64,
    drawn: Option<[u8; 32]>,
)
    ensures
        ({
            let c = consent(m, form, now, drawn);
            let said = consent_request_claims(m.key, form.request@);
            &&& encode_utf8(form.request@).len() > 8_192 || encode_utf8(form.owner_secret@).len()
                > 8_192 || encode_utf8(form.scope@).len() > 256 ==> c.result == Err::<
                RedirectModel,
                _,
            >(OAuthError::InvalidRequest)
            &&& said is None || said->Some_0.expires_at <= now ==> c.result == Err::<
                RedirectModel,
                _,
            >(OAuthError::InvalidRequest)
            &&& c.result is Err ==> c.codes == m.codes
            &&& c.result matches Ok(RedirectModel::Denied(_)) ==> c.codes == m.codes
                && form.decision@ == "deny"@
            &&& c.result matches Ok(RedirectModel::Approved(_)) ==> form.decision@ == "approve"@
                && encode_utf8(form.owner_secret@) == m.owner_secret && now
                < said->Some_0.expires_at
            &&& form.decision@ != "deny"@ && (form.decision@ != "approve"@ || encode_utf8(
                form.owner_secret@,
            ) != m.owner_secret) ==> c.result is Err
            &&& c.result == Err::<RedirectModel, _>(OAuthError::InvalidOwner) ==> form.decision@
                != "deny"@ && (form.decision@ != "approve"@ || encode_utf8(form.owner_secret@)
                != m.owner_secret)
            &&& c.result == Err::<RedirectModel, _>(OAuthError::InvalidScope) ==> form.decision@
                == "approve"@ && encode_utf8(form.owner_secret@) == m.owner_secret
            &&& c.result == Err::<RedirectModel, _>(OAuthError::InvalidClient)
                ==> registered_client(m.key, said->Some_0.client_id) is None
        }),
{
}

} // verus!
