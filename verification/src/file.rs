use crate::diagnostics::{position_of, to_position, Position, Range};
use crate::syntax::{
    comment_spans, lower_tree, ts_edit, ts_parse, ts_set_included_ranges, Edit, Point, Span,
    SyntaxNode, MAX_DEPTH,
};
use crate::text::{byte_slice, slice_bytes};
use crate::types::Type;
use vstd::prelude::*;
use vstd::string::StringExecFns;
use vstd::utf8::{encode_utf8, is_char_boundary};

verus! {

broadcast use vstd::std_specs::vec::axiom_vec_index_decreases;

/// How many line ends stand among the first `k` bytes.
pub open spec fn newlines(bytes: Seq<u8>, k: int) -> nat
    decreases k,
{
    if k <= 0 || k > bytes.len() {
        0
    } else {
        newlines(bytes, k - 1) + if bytes[k - 1] == 10u8 {
            1nat
        } else {
            0nat
        }
    }
}

/// Where the line begins that the byte offset `k` stands in.
pub open spec fn line_begin(bytes: Seq<u8>, k: int) -> int
    decreases k,
{
    if k <= 0 || k > bytes.len() {
        0
    } else if bytes[k - 1] == 10u8 {
        k
    } else {
        line_begin(bytes, k - 1)
    }
}

/// Whether line `line` begins at the byte offset `k`: `line` line ends stand
/// before `k`, and fewer before every earlier offset.
pub open spec fn begins_line(bytes: Seq<u8>, line: nat, k: int) -> bool {
    &&& 0 <= k <= bytes.len()
    &&& newlines(bytes, k) == line
    &&& forall|j: int| 0 <= j < k ==> #[trigger] newlines(bytes, j) < line
}

/// The byte offset at which line `line` begins, where the text has that
/// many lines. The text after the last line end is a line, empty or not.
pub open spec fn line_start(bytes: Seq<u8>, line: nat) -> Option<int> {
    if exists|k: int| begins_line(bytes, line, k) {
        Some(choose|k: int| begins_line(bytes, line, k))
    } else {
        None
    }
}

/// The byte offset that the position stands for: so many bytes into its
/// line. `None` where the text has no such line, or the offset does not fit
/// the machine's integers. The column is not held against the line's length.
pub open spec fn offset_at(bytes: Seq<u8>, line: nat, character: nat) -> Option<usize> {
    match line_start(bytes, line) {
        Some(s) => if s + character <= usize::MAX {
            Some((s + character) as usize)
        } else {
            None
        },
        None => None,
    }
}

/// The row and column of the byte offset `offset`, the column counted in
/// bytes; an offset past the end stands for the end.
pub open spec fn point_at(bytes: Seq<u8>, offset: int) -> Point {
    let k = if offset > bytes.len() {
        bytes.len() as int
    } else if offset < 0 {
        0
    } else {
        offset
    };
    Point { row: newlines(bytes, k) as usize, column: (k - line_begin(bytes, k)) as usize }
}

/// A position is valid in a text that has its line, where its column does
/// not reach past the end of that line.
pub open spec fn valid_position(bytes: Seq<u8>, line: nat, character: nat) -> bool {
    match line_start(bytes, line) {
        Some(s) => s + character <= bytes.len() && forall|j: int|
            s <= j < s + character ==> #[trigger] bytes[j] != 10u8,
        None => false,
    }
}

/// Line ends are never fewer further on, and never more than the bytes.
pub proof fn lemma_newlines_grow(bytes: Seq<u8>, a: int, b: int)
    requires
        0 <= a <= b <= bytes.len(),
    ensures
        newlines(bytes, a) <= newlines(bytes, b) <= newlines(bytes, a) + (b - a),
        line_begin(bytes, b) <= b,
        0 <= line_begin(bytes, b),
    decreases b - a,
{
    lemma_line_begin_bounds(bytes, b);
    if a < b {
        lemma_newlines_grow(bytes, a, b - 1);
    }
}

/// A line begins at or before each offset in it.
pub proof fn lemma_line_begin_bounds(bytes: Seq<u8>, k: int)
    requires
        0 <= k <= bytes.len(),
    ensures
        0 <= line_begin(bytes, k) <= k,
    decreases k,
{
    if k > 0 && bytes[k - 1] != 10u8 {
        lemma_line_begin_bounds(bytes, k - 1);
    }
}

/// Only one offset begins a line.
pub proof fn lemma_line_start_unique(bytes: Seq<u8>, line: nat, k: int)
    requires
        begins_line(bytes, line, k),
    ensures
        line_start(bytes, line) == Some(k),
{
    let c = choose|c: int| begins_line(bytes, line, c);
    if c < k {
        assert(newlines(bytes, c) < line);
    } else if k < c {
        assert(newlines(bytes, k) < line);
    }
}

/// Without a line end between them, two offsets stand in the same line.
pub proof fn lemma_same_line(bytes: Seq<u8>, s: int, k: int)
    requires
        0 <= s <= k <= bytes.len(),
        forall|j: int| s <= j < k ==> #[trigger] bytes[j] != 10u8,
    ensures
        newlines(bytes, k) == newlines(bytes, s),
        s < k ==> line_begin(bytes, k) == line_begin(bytes, s),
    decreases k - s,
{
    if s < k {
        assert(bytes[k - 1] != 10u8);
        lemma_same_line(bytes, s, k - 1);
    }
}

/// A position that is valid in a text, turned into a byte offset and back,
/// is itself.
pub proof fn lemma_position_round_trip(text: Seq<char>, pos: Position)
    requires
        valid_position(encode_utf8(text), pos.line as nat, pos.character as nat),
        encode_utf8(text).len() <= usize::MAX,
    ensures
        offset_at(encode_utf8(text), pos.line as nat, pos.character as nat) is Some,
        position_of(
            point_at(
                encode_utf8(text),
                offset_at(encode_utf8(text), pos.line as nat, pos.character as nat).unwrap() as int,
            ),
        ) == pos,
{
    let bytes = encode_utf8(text);
    let line = pos.line as nat;
    let character = pos.character as nat;
    let s = line_start(bytes, line).unwrap();
    let k = s + character;
    assert(begins_line(bytes, line, s));
    lemma_same_line(bytes, s, k);
    lemma_newlines_grow(bytes, 0, s);
    assert(line_begin(bytes, s) == s) by {
        if s > 0 && bytes[s - 1] != 10u8 {
            assert(newlines(bytes, s - 1) < line);
        }
    }
}

/// The byte offset in `text` of the position `r`: so many bytes into its
/// line.
pub fn byte_offset(text: &str, r: &Position) -> (offset: Option<usize>)
    ensures
        offset == offset_at(encode_utf8(text@), r.line as nat, r.character as nat),
{
    let bytes = text.as_bytes();
    let ghost b = encode_utf8(text@);
    let mut current_line: u32 = 0;
    let mut i: usize = 0;
    while i < bytes.len() && current_line != r.line
        invariant
            i <= bytes.len(),
            bytes@ == b,
            current_line == newlines(b, i as int),
            current_line <= r.line,
            forall|j: int| 0 <= j < i ==> #[trigger] newlines(b, j) < r.line,
        decreases bytes.len() - i,
    {
        if bytes[i] == 10u8 {
            current_line += 1;
        }
        i += 1;
    }
    if current_line == r.line {
        proof {
            lemma_line_start_unique(b, r.line as nat, i as int);
        }
        i.checked_add(r.character as usize)
    } else {
        proof {
            assert forall|k: int| !begins_line(b, r.line as nat, k) by {
                if begins_line(b, r.line as nat, k) {
                    lemma_newlines_grow(b, k, b.len() as int);
                    assert(newlines(b, k) < r.line) by {
                        if k < i {
                        } else {
                            assert(k == b.len());
                        }
                    }
                }
            }
        }
        None
    }
}

/// The row and column of the byte offset `offset` in `contents`.
pub fn offset_to_point(contents: &str, offset: usize) -> (p: Point)
    ensures
        p == point_at(encode_utf8(contents@), offset as int),
{
    let bytes = contents.as_bytes();
    let ghost b = encode_utf8(contents@);
    let end = if offset > bytes.len() {
        bytes.len()
    } else {
        offset
    };
    let mut row: usize = 0;
    let mut begin: usize = 0;
    let mut i: usize = 0;
    while i < end
        invariant
            i <= end <= bytes.len(),
            bytes@ == b,
            row == newlines(b, i as int),
            begin == line_begin(b, i as int),
            row <= i,
            begin <= i,
        decreases end - i,
    {
        if bytes[i] == 10u8 {
            row += 1;
            begin = i + 1;
        }
        i += 1;
    }
    Point { row, column: end - begin }
}

/// The position of the byte offset `offset` in `contents`; the end of the
/// text for an offset past it.
pub fn offset_to_position(contents: &str, offset: usize) -> (p: Position)
    ensures
        p == position_of(point_at(encode_utf8(contents@), offset as int)),
{
    to_position(&offset_to_point(contents, offset))
}


/// One change of a document: the text for a range, or without a range the
/// text for the whole document.
#[derive(Debug)]
pub struct TextChange {
    pub range: Option<Range>,
    pub text: String,
}

/// A change with its text as a sequence of characters.
pub struct TextChangeView {
    pub range: Option<Range>,
    pub text: Seq<char>,
}

impl View for TextChange {
    type V = TextChangeView;

    open spec fn view(&self) -> TextChangeView {
        TextChangeView { range: self.range, text: self.text@ }
    }
}

/// Why a change could not be applied.
#[derive(Clone, Copy, Debug, PartialEq, Eq, Structural)]
pub enum FileError {
    /// The range does not lie in the document.
    InvalidFileRange(Range),
}

/// The point at which a text ends that was put in at `start`: as many rows
/// further down as it has line ends, and in the column after its last line,
/// which for a text of one line begins at `start`.
pub open spec fn end_point(start: Point, text: Seq<u8>) -> (int, int) {
    let n = text.len() as int;
    (
        start.row + newlines(text, n),
        if newlines(text, n) == 0 {
            start.column + n
        } else {
            n - line_begin(text, n)
        },
    )
}

/// What the parser must be told where `text` replaces `range` in a document
/// of the given bytes. `None` where an end of the range does not lie in the
/// document or inside one of its characters, where the range ends before it
/// begins, or where a place of the change does not fit the machine's
/// integers.
pub open spec fn edit_of(bytes: Seq<u8>, range: Range, text: Seq<u8>) -> Option<Edit> {
    let start = offset_at(bytes, range.start.line as nat, range.start.character as nat);
    let end = offset_at(bytes, range.end.line as nat, range.end.character as nat);
    let from = Point { row: range.start.line as usize, column: range.start.character as usize };
    let to = end_point(from, text);
    match (start, end) {
        (Some(s), Some(e)) => if s <= e <= bytes.len() && is_char_boundary(bytes, s as int)
            && is_char_boundary(bytes, e as int) && s + text.len() <= usize::MAX && to.0
            <= usize::MAX && to.1 <= usize::MAX {
            Some(
                Edit {
                    start_byte: s,
                    old_end_byte: e,
                    new_end_byte: (s + text.len()) as usize,
                    start_position: from,
                    old_end_position: Point {
                        row: range.end.line as usize,
                        column: range.end.character as usize,
                    },
                    new_end_position: Point { row: to.0 as usize, column: to.1 as usize },
                },
            )
        } else {
            None
        },
        _ => None,
    }
}

/// The point at which `text` ends when it is put in at `start`; `None`
/// where that does not fit the machine's integers.
fn end_of(start: Point, text: &str) -> (p: Option<Point>)
    ensures
        ({
            let to = end_point(start, encode_utf8(text@));
            match p {
                Some(p) => p.row == to.0 && p.column == to.1,
                None => to.0 > usize::MAX || to.1 > usize::MAX,
            }
        }),
{
    let bytes = text.as_bytes();
    let ghost b = encode_utf8(text@);
    let mut rows: usize = 0;
    let mut begin: usize = 0;
    let mut i: usize = 0;
    while i < bytes.len()
        invariant
            i <= bytes.len(),
            bytes@ == b,
            rows == newlines(b, i as int),
            begin == line_begin(b, i as int),
            rows <= i,
            begin <= i,
        decreases bytes.len() - i,
    {
        if bytes[i] == 10u8 {
            rows += 1;
            begin = i + 1;
        }
        i += 1;
    }
    let row = match start.row.checked_add(rows) {
        Some(r) => r,
        None => {
            return None;
        },
    };
    if rows == 0 {
        match start.column.checked_add(bytes.len()) {
            Some(column) => Some(Point { row, column }),
            None => None,
        }
    } else {
        Some(Point { row, column: bytes.len() - begin })
    }
}

/// What the parser must be told where `text` replaces `range` in
/// `contents`; the range is refused where it does not lie in the document.
pub fn edit_for(contents: &str, range: &Range, text: &str) -> (r: Result<Edit, FileError>)
    ensures
        match r {
            Ok(edit) => edit_of(encode_utf8(contents@), *range, encode_utf8(text@)) == Some(edit),
            Err(e) => e == FileError::InvalidFileRange(*range) && edit_of(
                encode_utf8(contents@),
                *range,
                encode_utf8(text@),
            ) is None,
        },
{
    let refused = Err(FileError::InvalidFileRange(*range));
    let start = match byte_offset(contents, &range.start) {
        Some(s) => s,
        None => {
            return refused;
        },
    };
    let end = match byte_offset(contents, &range.end) {
        Some(e) => e,
        None => {
            return refused;
        },
    };
    if start > end || end > contents.as_bytes().len() {
        return refused;
    }
    if !contents.is_char_boundary(start) || !contents.is_char_boundary(end) {
        return refused;
    }
    let new_end = match start.checked_add(text.as_bytes().len()) {
        Some(n) => n,
        None => {
            return refused;
        },
    };
    let from = Point { row: range.start.line as usize, column: range.start.character as usize };
    let to = match end_of(from, text) {
        Some(p) => p,
        None => {
            return refused;
        },
    };
    Ok(
        Edit {
            start_byte: start,
            old_end_byte: end,
            new_end_byte: new_end,
            start_position: from,
            old_end_position: Point {
                row: range.end.line as usize,
                column: range.end.character as usize,
            },
            new_end_position: to,
        },
    )
}

/// The text in which `text` stands in place of the bytes `start..end` of
/// `content`.
pub open spec fn spliced(content: Seq<char>, start: int, end: int, text: Seq<char>) -> Seq<char> {
    let n = encode_utf8(content).len() as int;
    byte_slice(content, 0, start).unwrap() + text + byte_slice(content, end, n).unwrap()
}

/// Whether the bytes `start..end` can be cut out of a text of these bytes:
/// they lie in it, in order, and cut no character.
pub open spec fn cuttable(bytes: Seq<u8>, start: int, end: int) -> bool {
    0 <= start <= end <= bytes.len() && is_char_boundary(bytes, start) && is_char_boundary(
        bytes,
        end,
    )
}

/// The text in which `text` stands in place of the bytes `start..end` of
/// `contents`; `None` where those bytes cannot be cut out.
pub fn splice(contents: &str, start: usize, end: usize, text: &str) -> (r: Option<String>)
    ensures
        match r {
            Some(s) => cuttable(encode_utf8(contents@), start as int, end as int) && s@ == spliced(
                contents@,
                start as int,
                end as int,
                text@,
            ),
            None => !cuttable(encode_utf8(contents@), start as int, end as int),
        },
{
    proof {
        vstd::utf8::encode_utf8_valid_utf8(contents@);
        vstd::utf8::is_char_boundary_start_end_of_seq(encode_utf8(contents@));
    }
    let n = contents.as_bytes().len();
    let head = match slice_bytes(contents, 0, start) {
        Some(head) => head,
        None => {
            return None;
        },
    };
    let tail = match slice_bytes(contents, end, n) {
        Some(tail) => tail,
        None => {
            return None;
        },
    };
    if start > end {
        return None;
    }
    let mut out = String::new();
    out.append(head);
    out.append(text);
    out.append(tail);
    Some(out)
}

/// The text of a document after the change `change`, and the text itself
/// where the change is refused.
pub open spec fn changed(content: Seq<char>, change: TextChangeView) -> Seq<char> {
    match change.range {
        Some(range) => match edit_of(encode_utf8(content), range, encode_utf8(change.text)) {
            Some(edit) => spliced(
                content,
                edit.start_byte as int,
                edit.old_end_byte as int,
                change.text,
            ),
            None => content,
        },
        None => change.text,
    }
}

/// Whether the change `change` is refused on a document of this text.
pub open spec fn refused(content: Seq<char>, change: TextChangeView) -> Option<FileError> {
    match change.range {
        Some(range) => match edit_of(encode_utf8(content), range, encode_utf8(change.text)) {
            Some(_) => None,
            None => Some(FileError::InvalidFileRange(range)),
        },
        None => None,
    }
}

/// The views of a list of changes.
pub open spec fn change_views(v: Seq<TextChange>) -> Seq<TextChangeView> {
    v.map_values(|c: TextChange| c@)
}

/// The text of a document after the first `n` of `changes`, each applied to
/// what the ones before it left; a refused change leaves the text alone.
pub open spec fn changed_by(content: Seq<char>, changes: Seq<TextChangeView>, n: nat) -> Seq<char>
    decreases n,
{
    if n == 0 || n > changes.len() {
        content
    } else {
        changed(changed_by(content, changes, (n - 1) as nat), changes[n - 1])
    }
}

/// The refusals among the first `n` of `changes`, in order.
pub open spec fn refusals(content: Seq<char>, changes: Seq<TextChangeView>, n: nat) -> Seq<
    FileError,
>
    decreases n,
{
    if n == 0 || n > changes.len() {
        Seq::empty()
    } else {
        let before = refusals(content, changes, (n - 1) as nat);
        match refused(changed_by(content, changes, (n - 1) as nat), changes[n - 1]) {
            Some(e) => before.push(e),
            None => before,
        }
    }
}

/// An open document: its text, the tree of its code, the tree of its
/// comments, the code tree taken over for analysis where it is not too
/// deep, and the version of the text.
pub struct FileData {
    pub contents: String,
    pub php_tree: tree_sitter::Tree,
    pub comments_tree: tree_sitter::Tree,
    pub syntax: Option<SyntaxNode>,
    pub version: i32,
}

/// What a parse of a document gives.
pub struct Parsed {
    pub php_tree: tree_sitter::Tree,
    pub comments_tree: tree_sitter::Tree,
    pub syntax: Option<SyntaxNode>,
}

/// Why a document could not be parsed.
#[derive(Clone, Copy, Debug, PartialEq, Eq, Structural)]
pub enum ParseError {
    /// The parser for the code gave no tree.
    NoCodeTree,
    /// The parser for the comments refused their ranges.
    BadCommentRanges,
    /// The parser for the comments gave no tree.
    NoCommentTree,
}

/// The ranges that the parser for the comments is to read: those of the
/// comments in the code tree, and none where that tree was too deep to take
/// over.
pub open spec fn comment_ranges_of(syntax: Option<SyntaxNode>) -> Seq<Span> {
    match syntax {
        Some(root) => crate::syntax::comments_in(root),
        None => Seq::empty(),
    }
}

/// The ranges that the parser for the comments is to read.
pub fn comment_ranges(syntax: &Option<SyntaxNode>) -> (ranges: Vec<Span>)
    ensures
        ranges@ == comment_ranges_of(*syntax),
{
    match syntax {
        Some(root) => comment_spans(root),
        None => Vec::new(),
    }
}

/// Parses a document: the code with `php`, then its comments with `phpdoc`,
/// which reads only the comments that the code tree holds. Earlier trees of
/// the same document, edited to match the text, let the parsers keep what
/// did not change. The code tree is taken over for analysis unless it is
/// deeper than `MAX_DEPTH`.
pub fn parse(
    php: &mut tree_sitter::Parser,
    phpdoc: &mut tree_sitter::Parser,
    contents: &str,
    php_tree: Option<&tree_sitter::Tree>,
    doc_tree: Option<&tree_sitter::Tree>,
) -> (r: Result<Parsed, ParseError>)
    ensures
        match r {
            Ok(parsed) => match parsed.syntax {
                Some(root) => root.fits(MAX_DEPTH as nat),
                None => true,
            },
            Err(_) => true,
        },
{
    let php_tree = match ts_parse(php, contents, php_tree) {
        Some(tree) => tree,
        None => {
            return Err(ParseError::NoCodeTree);
        },
    };
    let syntax = lower_tree(&php_tree);
    let ranges = comment_ranges(&syntax);
    match ts_set_included_ranges(phpdoc, &ranges) {
        Ok(()) => {},
        Err(_) => {
            return Err(ParseError::BadCommentRanges);
        },
    }
    let comments_tree = match ts_parse(phpdoc, contents, doc_tree) {
        Some(tree) => tree,
        None => {
            return Err(ParseError::NoCommentTree);
        },
    };
    Ok(Parsed { php_tree, comments_tree, syntax })
}

/// How a batch of changes ended.
#[derive(Debug)]
pub enum Applied {
    /// The batch was for a version that the document has reached already;
    /// nothing was done.
    Stale,
    /// The changes were applied, but for the refused ones, and the document
    /// was parsed anew, unless `reparsed` says why not.
    Done { rejected: Vec<FileError>, reparsed: Result<(), ParseError> },
}

impl FileData {
    /// The types that the document declares; none is gathered from a
    /// document as yet.
    pub fn types(&self) -> (ts: Vec<Type>)
        ensures
            ts@.len() == 0,
    {
        Vec::new()
    }

    /// Opens a document: parses `contents` from nothing.
    pub fn open(
        php: &mut tree_sitter::Parser,
        phpdoc: &mut tree_sitter::Parser,
        contents: String,
        version: i32,
    ) -> (r: Result<FileData, ParseError>)
        ensures
            match r {
                Ok(file) => file.contents@ == contents@ && file.version == version,
                Err(_) => true,
            },
    {
        match parse(php, phpdoc, contents.as_str(), None, None) {
            Ok(parsed) => Ok(
                FileData {
                    contents,
                    php_tree: parsed.php_tree,
                    comments_tree: parsed.comments_tree,
                    syntax: parsed.syntax,
                    version,
                },
            ),
            Err(e) => Err(e),
        }
    }

    /// Applies one change to the text and tells both trees of it. A change
    /// whose range does not lie in the document is refused, and nothing is
    /// touched.
    pub fn change(&mut self, event: &TextChange) -> (r: Result<(), FileError>)
        ensures
            final(self).version == old(self).version,
            final(self).contents@ == changed(old(self).contents@, event@),
            match r {
                Ok(()) => refused(old(self).contents@, event@) is None,
                Err(e) => refused(old(self).contents@, event@) == Some(e) && *final(self) == *old(
                    self,
                ),
            },
    {
        match event.range {
            Some(r) => {
                match edit_for(self.contents.as_str(), &r, event.text.as_str()) {
                    Ok(edit) => {
                        let spliced = splice(
                            self.contents.as_str(),
                            edit.start_byte,
                            edit.old_end_byte,
                            event.text.as_str(),
                        );
                        if let Some(contents) = spliced {
                            ts_edit(&mut self.php_tree, &edit);
                            ts_edit(&mut self.comments_tree, &edit);
                            self.contents = contents;
                        }
                        Ok(())
                    },
                    Err(e) => Err(e),
                }
            },
            None => {
                self.contents = event.text.clone();
                Ok(())
            },
        }
    }

    /// Applies the changes that lead to `version`, in order, and parses the
    /// document anew. A batch for a version that is not newer than the
    /// document's is stale and does nothing.
    pub fn apply(
        &mut self,
        php: &mut tree_sitter::Parser,
        phpdoc: &mut tree_sitter::Parser,
        version: i32,
        changes: &Vec<TextChange>,
    ) -> (r: Applied)
        ensures
            match r {
                Applied::Stale => old(self).version >= version && *final(self) == *old(self),
                Applied::Done { rejected, reparsed } => {
                    &&& old(self).version < version
                    &&& final(self).version == version
                    &&& final(self).contents@ == changed_by(
                        old(self).contents@,
                        change_views(changes@),
                        changes@.len(),
                    )
                    &&& rejected@ == refusals(
                        old(self).contents@,
                        change_views(changes@),
                        changes@.len(),
                    )
                },
            },
    {
        if self.version >= version {
            return Applied::Stale;
        }
        self.version = version;
        let ghost start = self.contents@;
        let ghost views = change_views(changes@);
        let mut rejected: Vec<FileError> = Vec::new();
        let mut i: usize = 0;
        while i < changes.len()
            invariant
                i <= changes.len(),
                views == change_views(changes@),
                self.version == version,
                self.contents@ == changed_by(start, views, i as nat),
                rejected@ == refusals(start, views, i as nat),
            decreases changes.len() - i,
        {
            match self.change(&changes[i]) {
                Ok(()) => {},
                Err(e) => {
                    rejected.push(e);
                },
            }
            i += 1;
        }
        let reparsed = match parse(
            php,
            phpdoc,
            self.contents.as_str(),
            Some(&self.php_tree),
            Some(&self.comments_tree),
        ) {
            Ok(parsed) => {
                self.php_tree = parsed.php_tree;
                self.comments_tree = parsed.comments_tree;
                self.syntax = parsed.syntax;
                Ok(())
            },
            Err(e) => Err(e),
        };
        Applied::Done { rejected, reparsed }
    }
}

} // verus!
