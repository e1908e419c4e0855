//! The theme of the user interface: how a page reports it, and how it is set
//! again when the window opens.

use vstd::prelude::*;
use vstd::string::*;
use vstd::utf8::{decode_utf8, valid_utf8};

use crate::auth::{presented_token, valid_token};
use crate::http::{fields, plain_text, text_reply, Header, Reply, RequestUri};
use crate::text::{
    blank, is_space, law_trimming_takes_the_blank_ends, opt_text, same_text, trim, trim_text,
};

verus! {

/// The text of some bytes, with a replacement character for what is not UTF-8:
/// what `String::from_utf8_lossy` gives.
pub uninterp spec fn lossy_text(b: Seq<u8>) -> Seq<char>;

/// `String::from_utf8_lossy`. Claimed is that the text depends on the bytes
/// alone, and that bytes that are UTF-8 give the text that they encode. How much
/// of other bytes one replacement character stands for is left unsaid.
#[verifier::external_body]
fn text_of_bytes(b: &[u8]) -> (r: String)
    ensures
        r@ == lossy_text(b@),
        valid_utf8(b@) ==> r@ == decode_utf8(b@),
{
    String::from_utf8_lossy(b).into_owned()
}

/// What a report of a theme leads to.
#[derive(Clone, Debug)]
pub struct ThemeOutcome {
    pub reply: Reply,
    /// The theme to store, if it is another than the one that is stored.
    pub store: Option<String>,
}

/// The theme to store when `text` is reported while `current` is stored.
pub open spec fn theme_to_store(text: Seq<char>, current: Seq<char>) -> Option<Seq<char>> {
    if trim(text) != current {
        Some(trim(text))
    } else {
        None
    }
}

/// The theme to store when `text` is reported while `current` is stored.
pub fn changed_theme(text: &str, current: &str) -> (r: Option<String>)
    ensures
        opt_text(r) == theme_to_store(text@, current@),
{
    let theme = trim_text(text);
    if same_text(theme.as_str(), current) {
        None
    } else {
        Some(theme)
    }
}

/// Takes the report of a theme, from one who presents the token.
pub fn report_theme(
    token: &str,
    uri: &RequestUri,
    headers: &Vec<Header>,
    body: &Vec<u8>,
    current: &str,
) -> (r: ThemeOutcome)
    ensures
        presented_token(uri@, fields(headers@)) != Some(token@) ==> r.reply@ == plain_text(
            401,
            "unauthorized"@,
        ) && r.store is None,
        presented_token(uri@, fields(headers@)) == Some(token@) ==> r.reply@ == plain_text(
            200,
            "ok"@,
        ) && opt_text(r.store) == theme_to_store(lossy_text(body@), current@),
{
    if !valid_token(token, uri, headers) {
        return ThemeOutcome { reply: text_reply(401, "unauthorized"), store: None };
    }
    let text = text_of_bytes(body.as_slice());
    ThemeOutcome {
        reply: text_reply(200, "ok"),
        store: changed_theme(text.as_str(), current),
    }
}

/// The theme that a page is started with; none if none was chosen.
pub open spec fn chosen(theme: Seq<char>) -> Option<Seq<char>> {
    if theme.len() == 0 {
        None
    } else {
        Some(theme)
    }
}

/// The theme that a page is started with.
pub fn chosen_theme(theme: &str) -> (r: Option<String>)
    ensures
        opt_text(r) == chosen(theme@),
{
    if theme.is_empty() {
        None
    } else {
        Some(theme.to_owned())
    }
}

/// The script that sets a theme in the window.
pub open spec fn restore_script(theme: Seq<char>) -> Seq<char> {
    "localStorage.setItem('dsh-angelina-themes.selection', '"@ + theme + "')"@
}

/// The script that sets a theme in the window.
pub fn theme_restore_script(theme: &str) -> (r: String)
    ensures
        r@ == restore_script(theme@),
{
    let mut s = "localStorage.setItem('dsh-angelina-themes.selection', '".to_owned();
    s.append(theme);
    s.append("')");
    s
}

// ---------------------------------------------------------------------------
// Laws
// ---------------------------------------------------------------------------

/// A theme that has been stored is not stored again when it is reported again.
pub proof fn law_a_theme_is_stored_once(text: Seq<char>, current: Seq<char>)
    ensures
        theme_to_store(
            text,
            match theme_to_store(text, current) {
                Some(t) => t,
                None => current,
            },
        ) is None,
{
}

/// A theme that is reported is stored without the white space around it, if it is
/// another than the one that is stored, and only then.
pub proof fn law_another_theme_is_stored(
    lead: Seq<char>,
    theme: Seq<char>,
    tail: Seq<char>,
    current: Seq<char>,
)
    requires
        blank(lead),
        blank(tail),
        theme.len() > 0 ==> !is_space(theme[0]) && !is_space(theme.last()),
    ensures
        theme != current ==> theme_to_store(lead + theme + tail, current) == Some(theme),
        theme == current ==> theme_to_store(lead + theme + tail, current) is None,
{
    law_trimming_takes_the_blank_ends(lead, theme, tail);
}

/// The saved theme is the one that is chosen, if any is; and the window sets it, whole,
/// under the key that the page reads.
pub proof fn law_the_saved_theme_is_set(theme: Seq<char>)
    ensures
        theme.len() > 0 ==> chosen(theme) == Some(theme),
        theme.len() == 0 ==> chosen(theme) is None,
        restore_script(theme) == "localStorage.setItem('dsh-angelina-themes.selection', '"@ + theme
            + "')"@,
{
}

} // verus!
