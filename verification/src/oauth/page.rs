//! The consent page.
use vstd::prelude::*;

use crate::oauth::scope::scope_values;
use crate::oauth::scope::ScopeGrant;
use crate::text::texts;

verus! {

pub open spec fn escaped_char(c: char) -> Seq<char> {
    if c == '&' {
        "&amp;"@
    } else if c == '<' {
        "&lt;"@
    } else if c == '>' {
        "&gt;"@
    } else if c == '"' {
        "&quot;"@
    } else if c == '\'' {
        "&#x27;"@
    } else {
        seq![c]
    }
}

/// A text with the characters that mean something in HTML written as entities.
pub open spec fn escaped(s: Seq<char>) -> Seq<char>
    decreases s.len(),
{
    if s.len() == 0 {
        Seq::empty()
    } else {
        escaped(s.drop_last()) + escaped_char(s.last())
    }
}

/// Whether a character can neither begin a tag nor end an attribute.
pub open spec fn is_inert(c: char) -> bool {
    c != '<' && c != '>' && c != '"' && c != '\''
}

/// Escaped text can neither begin a tag nor end the attribute it stands in,
/// whatever was escaped.
pub proof fn lemma_escaped_is_inert(s: Seq<char>, i: int)
    requires
        0 <= i < escaped(s).len(),
    ensures
        is_inert(escaped(s)[i]),
    decreases s.len(),
{
    if s.len() > 0 {
        let before = escaped(s.drop_last());
        if i < before.len() {
            lemma_escaped_is_inert(s.drop_last(), i);
        } else {
            reveal_strlit("&amp;");
            reveal_strlit("&lt;");
            reveal_strlit("&gt;");
            reveal_strlit("&quot;");
            reveal_strlit("&#x27;");
            assert(escaped(s)[i] == escaped_char(s.last())[i - before.len()]);
        }
    }
}

pub fn escape_html(value: &str) -> (r: String)
    ensures
        r@ == escaped(value@),
{
    let mut out = String::new();
    proof {
        assert(value@.take(0) =~= Seq::empty());
    }
    for c in it: value.chars()
        invariant
            it.seq() == value@,
            out@ == escaped(value@.take(it.index())),
    {
        proof {
            assert(value@.take(it.index() + 1).drop_last() =~= value@.take(it.index()));
            assert(value@.take(it.index() + 1).last() == c);
        }
        let ghost before = out@;
        if c == '&' {
            out.append("&amp;");
        } else if c == '<' {
            out.append("&lt;");
        } else if c == '>' {
            out.append("&gt;");
        } else if c == '"' {
            out.append("&quot;");
        } else if c == '\'' {
            out.append("&#x27;");
        } else {
            out.push(c);
            proof {
                assert(out@ =~= before + seq![c]);
            }
        }
    }
    proof {
        assert(value@.take(value@.len() as int) =~= value@);
    }
    out
}

/// The choice of one scope.
pub open spec fn scope_option(scope: Seq<char>, chosen: bool) -> Seq<char> {
    "<label><input type=\"radio\" name=\"scope\" value=\""@ + escaped(scope) + "\""@ + (if chosen {
        " checked"@
    } else {
        ""@
    }) + "> "@ + escaped(scope) + "</label>"@
}

/// The choice among scopes, the first being chosen already.
pub open spec fn scope_options(scopes: Seq<Seq<char>>) -> Seq<char>
    decreases scopes.len(),
{
    if scopes.len() == 0 {
        Seq::empty()
    } else {
        scope_options(scopes.drop_last()) + (if scopes.len() > 1 {
            "<br>"@
        } else {
            ""@
        }) + scope_option(scopes.last(), scopes.len() == 1)
    }
}

/// The consent page for a signed request.
pub open spec fn approval_page(
    request: Seq<char>,
    client_id: Seq<char>,
    redirect_uri: Seq<char>,
    resource: Seq<char>,
    scopes: Set<Seq<char>>,
) -> Seq<char> {
    "<!doctype html><html lang=\"en\"><head><meta charset=\"utf-8\"><meta name=\"viewport\" content=\"width=device-width,initial-scale=1\"><title>Engram MCP authorization</title></head><body><main><h1>Authorize Engram MCP</h1><p>Client: <code>"@
        + escaped(client_id) + "</code></p><p>Redirect URI: <code>"@ + escaped(redirect_uri)
        + "</code></p><p>Resource: <code>"@ + escaped(resource)
        + "</code></p><form method=\"post\" action=\"/oauth/authorize\"><input type=\"hidden\" name=\"request\" value=\""@
        + escaped(request)
        + "\"><label>Owner secret <input type=\"password\" name=\"owner_secret\" autocomplete=\"current-password\" required></label><fieldset><legend>Grant scope</legend>"@
        + scope_options(scope_values(scopes))
        + "</fieldset><button type=\"submit\" name=\"decision\" value=\"approve\">Approve</button><button type=\"submit\" name=\"decision\" value=\"deny\">Deny</button></form></main></body></html>"@
}

fn render_scope_options(scopes: &Vec<String>) -> (r: String)
    ensures
        r@ == scope_options(texts(scopes@)),
{
    let ghost all = texts(scopes@);
    let mut out = String::new();
    let mut i: usize = 0;
    proof {
        assert(all.take(0) =~= Seq::empty());
    }
    while i < scopes.len()
        invariant
            i <= scopes@.len(),
            all == texts(scopes@),
            out@ == scope_options(all.take(i as int)),
        decreases scopes@.len() - i,
    {
        let ghost before = out@;
        proof {
            assert(all.take(i + 1).drop_last() =~= all.take(i as int));
            assert(all.take(i + 1).last() == all[i as int]);
            assert(all[i as int] == scopes@[i as int]@);
            reveal_strlit("");
        }
        if i > 0 {
            out.append("<br>");
        }
        let name = escape_html(scopes[i].as_str());
        out.append("<label><input type=\"radio\" name=\"scope\" value=\"");
        out.append(name.as_str());
        out.append("\"");
        if i == 0 {
            out.append(" checked");
        }
        out.append("> ");
        out.append(name.as_str());
        out.append("</label>");
        proof {
            assert(out@ =~= before + (if i > 0 {
                "<br>"@
            } else {
                ""@
            }) + scope_option(all[i as int], i == 0));
        }
        i = i + 1;
    }
    proof {
        assert(all.take(all.len() as int) =~= all);
    }
    out
}

pub fn render_approval_page(
    request: &str,
    client_id: &str,
    redirect_uri: &str,
    resource: &str,
    scopes: &ScopeGrant,
) -> (r: String)
    ensures
        r@ == approval_page(request@, client_id@, redirect_uri@, resource@, scopes@),
{
    let options = render_scope_options(&scopes.values());
    let mut out = "<!doctype html><html lang=\"en\"><head><meta charset=\"utf-8\"><meta name=\"viewport\" content=\"width=device-width,initial-scale=1\"><title>Engram MCP authorization</title></head><body><main><h1>Authorize Engram MCP</h1><p>Client: <code>".to_owned();
    out.append(escape_html(client_id).as_str());
    out.append("</code></p><p>Redirect URI: <code>");
    out.append(escape_html(redirect_uri).as_str());
    out.append("</code></p><p>Resource: <code>");
    out.append(escape_html(resource).as_str());
    out.append("</code></p><form method=\"post\" action=\"/oauth/authorize\"><input type=\"hidden\" name=\"request\" value=\"");
    out.append(escape_html(request).as_str());
    out.append("\"><label>Owner secret <input type=\"password\" name=\"owner_secret\" autocomplete=\"current-password\" required></label><fieldset><legend>Grant scope</legend>");
    out.append(options.as_str());
    out.append("</fieldset><button type=\"submit\" name=\"decision\" value=\"approve\">Approve</button><button type=\"submit\" name=\"decision\" value=\"deny\">Deny</button></form></main></body></html>");
    out
}

} // verus!
