//! Pages.

use crate::text::concat3;
use crate::text::format_i64;
use crate::text::signed_decimal;
use crate::text::to_chars;
use vstd::prelude::*;

verus! {

/// What stands for a character in a page.
pub open spec fn escaped_char(c: char) -> Seq<char> {
    if c == '&' {
        "&amp;"@
    } else if c == '<' {
        "&lt;"@
    } else if c == '>' {
        "&gt;"@
    } else if c == '"' {
        "&quot;"@
    } else if c == '\'' {
        "&#39;"@
    } else {
        seq![c]
    }
}

/// What stands for a text in a page.
pub open spec fn escaped(s: Seq<char>) -> Seq<char>
    decreases s.len(),
{
    if s.len() == 0 {
        Seq::empty()
    } else {
        escaped(s.drop_last()) + escaped_char(s.last())
    }
}

/// The text as it stands in a page.
pub fn html_escape(s: &str) -> (r: String)
    ensures
        r@ == escaped(s@),
{
    let chars = to_chars(s);
    let mut out = String::new();
    let mut i: usize = 0;
    assert(chars@.take(0) =~= Seq::<char>::empty());
    while i < chars.len()
        invariant
            i <= chars@.len(),
            out@ == escaped(chars@.take(i as int)),
        decreases chars@.len() - i,
    {
        let c = chars[i];
        proof {
            assert(chars@.take(i + 1).drop_last() =~= chars@.take(i as int));
        }
        if c == '&' {
            out.append("&amp;");
        } else if c == '<' {
            out.append("&lt;");
        } else if c == '>' {
            out.append("&gt;");
        } else if c == '"' {
            out.append("&quot;");
        } else if c == '\'' {
            out.append("&#39;");
        } else {
            let ghost before = out@;
            out.push(c);
            assert(out@ =~= before + seq![c]);
        }
        i += 1;
    }
    assert(chars@.take(chars@.len() as int) =~= chars@);
    out
}

/// Whether the character is one that ends a text or an attribute in a page.
pub open spec fn is_markup(c: char) -> bool {
    c == '<' || c == '>' || c == '"' || c == '\''
}

/// No escaped text holds markup: it neither opens a tag nor ends an attribute.
pub proof fn law_escaped_has_no_markup(s: Seq<char>)
    ensures
        forall|i: int| 0 <= i < escaped(s).len() ==> !is_markup(#[trigger] escaped(s)[i]),
    decreases s.len(),
{
    reveal_strlit("&amp;");
    reveal_strlit("&lt;");
    reveal_strlit("&gt;");
    reveal_strlit("&quot;");
    reveal_strlit("&#39;");
    if s.len() > 0 {
        law_escaped_has_no_markup(s.drop_last());
        let front = escaped(s.drop_last());
        let last = escaped_char(s.last());
        assert forall|i: int| 0 <= i < last.len() implies !is_markup(#[trigger] last[i]) by {}
        assert forall|i: int| 0 <= i < escaped(s).len() implies !is_markup(
            #[trigger] escaped(s)[i],
        ) by {
            if i < front.len() {
                assert(escaped(s)[i] == front[i]);
            } else {
                assert(escaped(s)[i] == last[i - front.len()]);
            }
        }
    }
}

/// A text of letters, digits and the like stands in a page as it is.
pub proof fn law_plain_text_unchanged(s: Seq<char>)
    requires
        forall|i: int| 0 <= i < s.len() ==> !is_markup(#[trigger] s[i]) && s[i] != '&',
    ensures
        escaped(s) == s,
    decreases s.len(),
{
    if s.len() > 0 {
        let front = s.drop_last();
        assert forall|i: int| 0 <= i < front.len() implies !is_markup(#[trigger] front[i])
            && front[i] != '&' by {
            assert(front[i] == s[i]);
        }
        law_plain_text_unchanged(front);
        assert(!is_markup(s[s.len() - 1]) && s[s.len() - 1] != '&');
        assert(front + seq![s.last()] =~= s);
    }
}

/// The login page: one button, with the token against forged requests.
pub fn login_page(csrf: &str) -> (r: String)
    ensures
        r@ == "<!doctype html>\n<html lang=\"en\">\n<head>\n<meta charset=\"utf-8\">\n<title>deskd · login</title>\n<meta name=\"viewport\" content=\"width=device-width, initial-scale=1\">\n</head>\n<body>\n<main>\n  <h1>deskd</h1>\n  <p>Sign in via Telegram. We will send a one-time link to your configured account.</p>\n  <form method=\"post\" action=\"/login/request\">\n    <input type=\"hidden\" name=\"_csrf\" value=\""@ + escaped(csrf@) + "\">\n    <button type=\"submit\">Send link to Telegram</button>\n  </form>\n</main>\n</body>\n</html>"@,
{
    let token = html_escape(csrf);
    concat3("<!doctype html>\n<html lang=\"en\">\n<head>\n<meta charset=\"utf-8\">\n<title>deskd · login</title>\n<meta name=\"viewport\" content=\"width=device-width, initial-scale=1\">\n</head>\n<body>\n<main>\n  <h1>deskd</h1>\n  <p>Sign in via Telegram. We will send a one-time link to your configured account.</p>\n  <form method=\"post\" action=\"/login/request\">\n    <input type=\"hidden\" name=\"_csrf\" value=\"", token.as_str(), "\">\n    <button type=\"submit\">Send link to Telegram</button>\n  </form>\n</main>\n</body>\n</html>")
}

/// The dashboard of a user.
pub fn dashboard_page(telegram_id: i64, csrf: &str) -> (r: String)
    ensures
        r@ == "<!doctype html>\n<html lang=\"en\">\n<head>\n<meta charset=\"utf-8\">\n<title>deskd · dashboard</title>\n<meta name=\"viewport\" content=\"width=device-width, initial-scale=1\">\n</head>\n<body>\n<main>\n  <h1>deskd dashboard</h1>\n  <p>Logged in as Telegram user <strong>"@ + signed_decimal(telegram_id as int) + "</strong>.</p>\n  <p>Agent data lands in a future PR (#442 child 2).</p>\n  <form method=\"post\" action=\"/logout\">\n    <input type=\"hidden\" name=\"_csrf\" value=\""@ + escaped(csrf@) + "\">\n    <button type=\"submit\">Log out</button>\n  </form>\n</main>\n</body>\n</html>"@,
{
    let id = format_i64(telegram_id);
    let token = html_escape(csrf);
    let mut out = concat3("<!doctype html>\n<html lang=\"en\">\n<head>\n<meta charset=\"utf-8\">\n<title>deskd · dashboard</title>\n<meta name=\"viewport\" content=\"width=device-width, initial-scale=1\">\n</head>\n<body>\n<main>\n  <h1>deskd dashboard</h1>\n  <p>Logged in as Telegram user <strong>", id.as_str(), "</strong>.</p>\n  <p>Agent data lands in a future PR (#442 child 2).</p>\n  <form method=\"post\" action=\"/logout\">\n    <input type=\"hidden\" name=\"_csrf\" value=\"");
    out.append(token.as_str());
    out.append("\">\n    <button type=\"submit\">Log out</button>\n  </form>\n</main>\n</body>\n</html>");
    out
}

/// The page that says that a link was sent.
pub fn link_sent_page() -> (r: &'static str)
    ensures
        r@ == "<!doctype html>\n<html lang=\"en\">\n<head>\n<meta charset=\"utf-8\">\n<title>deskd · link sent</title>\n<meta name=\"viewport\" content=\"width=device-width, initial-scale=1\">\n</head>\n<body>\n<main>\n  <h1>Login link sent</h1>\n  <p>Check Telegram for a one-time login link. It is single-use and expires shortly.</p>\n</main>\n</body>\n</html>"@,
{
    "<!doctype html>\n<html lang=\"en\">\n<head>\n<meta charset=\"utf-8\">\n<title>deskd · link sent</title>\n<meta name=\"viewport\" content=\"width=device-width, initial-scale=1\">\n</head>\n<body>\n<main>\n  <h1>Login link sent</h1>\n  <p>Check Telegram for a one-time login link. It is single-use and expires shortly.</p>\n</main>\n</body>\n</html>"
}

/// A text is escaped character by character, in order.
pub proof fn law_escaped_character_by_character(a: Seq<char>, c: char, b: Seq<char>)
    ensures
        escaped(a + seq![c] + b) == escaped(a) + escaped(seq![c]) + escaped(b),
        c == '&' ==> escaped(seq![c]) == "&amp;"@,
        c == '<' ==> escaped(seq![c]) == "&lt;"@,
        c == '>' ==> escaped(seq![c]) == "&gt;"@,
        c == '"' ==> escaped(seq![c]) == "&quot;"@,
        c == '\'' ==> escaped(seq![c]) == "&#39;"@,
        c != '&' && c != '<' && c != '>' && c != '"' && c != '\'' ==> escaped(seq![c]) == seq![c],
    decreases b.len(),
{
    reveal_with_fuel(escaped, 2);
    assert(seq![c].drop_last() =~= Seq::<char>::empty());
    assert(escaped(seq![c]) =~= escaped_char(c));
    let all = a + seq![c] + b;
    if b.len() == 0 {
        assert(all.drop_last() =~= a);
        assert(escaped(all) =~= escaped(a) + escaped(seq![c]) + escaped(b));
    } else {
        law_escaped_character_by_character(a, c, b.drop_last());
        assert(all.drop_last() =~= a + seq![c] + b.drop_last());
        assert(escaped(all) =~= escaped(a) + escaped(seq![c]) + escaped(b));
    }
}

} // verus!
