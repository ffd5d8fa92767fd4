use crate::diagnostics::{position_of, Range};
use crate::file::{offset_to_position, point_at};
use vstd::prelude::*;
use vstd::string::StrSliceExecFns;
use vstd::string::StringExecFns;
use vstd::utf8::encode_utf8;

verus! {

/// The pattern of a tag that only prints: `<?php echo ...; ?>`, with what
/// is printed as its first group.
pub open spec fn phpecho_pattern() -> Seq<char> {
    "<\\?php\\s+echo\\s+([^;]+);\\s*\\?>"@
}

/// One text put in the place of a range of a document.
#[derive(Debug)]
pub struct TextEdit {
    pub range: Range,
    pub new_text: String,
}

/// An edit with its text as a sequence of characters.
pub struct TextEditView {
    pub range: Range,
    pub new_text: Seq<char>,
}

impl View for TextEdit {
    type V = TextEditView;

    open spec fn view(&self) -> TextEditView {
        TextEditView { range: self.range, new_text: self.new_text@ }
    }
}

/// The views of a list of edits.
pub open spec fn edit_views(v: Seq<TextEdit>) -> Seq<TextEditView> {
    v.map_values(|e: TextEdit| e@)
}

/// One match of a pattern in a text: the bytes it covers, and the text of
/// its first group where that group took part.
#[derive(Debug)]
pub struct Found {
    pub start: usize,
    pub end: usize,
    pub first: Option<String>,
}

/// A match with its text as a sequence of characters.
pub open spec fn found_view(f: Found) -> (int, int, Option<Seq<char>>) {
    (
        f.start as int,
        f.end as int,
        match f.first {
            Some(s) => Some(s@),
            None => None,
        },
    )
}

/// The views of a list of matches.
pub open spec fn found_views(v: Seq<Found>) -> Seq<(int, int, Option<Seq<char>>)> {
    v.map_values(|f: Found| found_view(f))
}

/// The matches of the pattern `pattern` in `text`, from left to right and
/// without overlap, as the regular expressions of the `regex` crate define
/// them; `None` for a pattern that is not one of them.
pub uninterp spec fn regex_matches(pattern: Seq<char>, text: Seq<char>) -> Option<
    Seq<(int, int, Option<Seq<char>>)>,
>;

/// `regex::Regex::new` and `regex::Regex::captures_iter`: the matches of a
/// pattern in a text, each with the text of its first group. The result is
/// given the name `regex_matches`; nothing else is claimed of it.
#[verifier::external_body]
fn find_all(pattern: &str, text: &str) -> (r: Option<Vec<Found>>)
    ensures
        match r {
            Some(found) => regex_matches(pattern@, text@) == Some(found_views(found@)),
            None => regex_matches(pattern@, text@) is None,
        },
{
    let re = regex::Regex::new(pattern).ok()?;
    let found = re.captures_iter(text).map(
        |c|
            Found {
                start: c.get_match().start(),
                end: c.get_match().end(),
                first: c.get(1).map(|f| f.as_str().to_string()),
            },
    );
    Some(found.collect())
}

/// Whether `c` is white space, as Unicode has it.
pub open spec fn is_white_space(c: char) -> bool {
    ||| '\u{9}' <= c <= '\u{d}'
    ||| c == ' '
    ||| c == '\u{85}'
    ||| c == '\u{a0}'
    ||| c == '\u{1680}'
    ||| '\u{2000}' <= c <= '\u{200a}'
    ||| c == '\u{2028}'
    ||| c == '\u{2029}'
    ||| c == '\u{202f}'
    ||| c == '\u{205f}'
    ||| c == '\u{3000}'
}

/// `s` without the white space at its end.
pub open spec fn trimmed_end(s: Seq<char>) -> Seq<char>
    decreases s.len(),
{
    if s.len() > 0 && is_white_space(s.last()) {
        trimmed_end(s.drop_last())
    } else {
        s
    }
}

/// Whether `c` is white space.
pub fn white_space(c: char) -> (b: bool)
    ensures
        b == is_white_space(c),
{
    ('\u{9}' <= c && c <= '\u{d}') || c == ' ' || c == '\u{85}' || c == '\u{a0}' || c == '\u{1680}'
        || ('\u{2000}' <= c && c <= '\u{200a}') || c == '\u{2028}' || c == '\u{2029}' || c
        == '\u{202f}' || c == '\u{205f}' || c == '\u{3000}'
}

/// `s` without the white space at its end.
pub fn trim_end(s: &str) -> (r: &str)
    ensures
        r@ == trimmed_end(s@),
{
    let chars = crate::text::chars_of(s);
    let mut end: usize = chars.len();
    assert(s@.take(chars.len() as int) =~= s@);
    while end > 0 && white_space(chars[end - 1])
        invariant
            end <= chars.len(),
            chars@ == s@,
            trimmed_end(s@) == trimmed_end(s@.take(end as int)),
        decreases end,
    {
        assert(s@.take(end as int).drop_last() =~= s@.take(end as int - 1));
        end -= 1;
    }
    assert(s@.subrange(0, end as int) =~= s@.take(end as int));
    s.substring_char(0, end)
}

/// The edit that makes the printing tag `found` of `contents` a short one;
/// none where the match has no first group.
pub open spec fn echo_edit(contents: Seq<char>, found: (int, int, Option<Seq<char>>)) -> Option<
    TextEditView,
> {
    match found.2 {
        Some(inner) => Some(
            TextEditView {
                range: Range {
                    start: position_of(point_at(encode_utf8(contents), found.0)),
                    end: position_of(point_at(encode_utf8(contents), found.1)),
                },
                new_text: "<?= "@ + trimmed_end(inner) + " ?>"@,
            },
        ),
        None => None,
    }
}

/// The edits for the first `n` of `found`.
pub open spec fn echo_edits(
    contents: Seq<char>,
    found: Seq<(int, int, Option<Seq<char>>)>,
    n: nat,
) -> Seq<TextEditView>
    decreases n,
{
    if n == 0 || n > found.len() {
        Seq::empty()
    } else {
        let before = echo_edits(contents, found, (n - 1) as nat);
        match echo_edit(contents, found[n - 1]) {
            Some(e) => before.push(e),
            None => before,
        }
    }
}

/// The edits that make short tags of the printing tags `found` in
/// `contents`: each is replaced by `<?= ... ?>` around what it prints,
/// without the white space at the end of that.
pub fn phpecho_edits(contents: &str, found: &Vec<Found>) -> (edits: Vec<TextEdit>)
    ensures
        edit_views(edits@) == echo_edits(contents@, found_views(found@), found@.len()),
{
    let mut edits: Vec<TextEdit> = Vec::new();
    assert(edit_views(edits@) =~= Seq::<TextEditView>::empty());
    let mut i: usize = 0;
    while i < found.len()
        invariant
            i <= found.len(),
            edit_views(edits@) == echo_edits(contents@, found_views(found@), i as nat),
        decreases found.len() - i,
    {
        let m = &found[i];
        if let Some(inner) = &m.first {
            let range = Range {
                start: offset_to_position(contents, m.start),
                end: offset_to_position(contents, m.end),
            };
            let mut new_text = String::from_str("<?= ");
            new_text.append(trim_end(inner.as_str()));
            new_text.append(" ?>");
            let ghost before = edit_views(edits@);
            let edit = TextEdit { range, new_text };
            let ghost v = edit@;
            edits.push(edit);
            assert(edit_views(edits@) =~= before.push(v));
        }
        i += 1;
    }
    edits
}

/// The edits of a document of the given matches of the pattern, and none
/// where there are no matches to go by.
pub open spec fn phpecho_changes(
    contents: Seq<char>,
    found: Option<Seq<(int, int, Option<Seq<char>>)>>,
) -> Seq<TextEditView> {
    match found {
        Some(f) => echo_edits(contents, f, f.len()),
        None => Seq::empty(),
    }
}

/// The edits that make short tags of all the printing tags in `contents`.
pub fn changes_phpecho(contents: &str) -> (edits: Vec<TextEdit>)
    ensures
        edit_views(edits@) == phpecho_changes(
            contents@,
            regex_matches(phpecho_pattern(), contents@),
        ),
{
    match find_all("<\\?php\\s+echo\\s+([^;]+);\\s*\\?>", contents) {
        Some(found) => phpecho_edits(contents, &found),
        None => {
            let edits: Vec<TextEdit> = Vec::new();
            assert(edit_views(edits@) =~= Seq::<TextEditView>::empty());
            edits
        },
    }
}

} // verus!
