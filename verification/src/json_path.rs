//! Where values stand in a JSON text: byte ranges by path, and byte offsets as
//! lines and columns.
use jsonc_parser::common::Ranged;
use std::ops::Range;

use vstd::prelude::*;
use vstd::utf8::encode_utf8;

use crate::text::same_text;

verus! {

/// A syntax tree of `jsonc_parser`.
#[verifier::external_type_specification]
#[verifier::external_body]
pub struct ExAstValue<'a>(jsonc_parser::ast::Value<'a>);

// ---------------------------------------------------------------------------
// Paths
// ---------------------------------------------------------------------------

/// One step of a path into a JSON value.
#[derive(Debug, PartialEq)]
pub enum JsonPathSegment {
    /// Into a member of an object.
    Key(String),
    /// Into an item of an array.
    Index(usize),
}

/// What a step of a path holds.
pub enum SegmentModel {
    Key(Seq<char>),
    Index(usize),
}

impl View for JsonPathSegment {
    type V = SegmentModel;

    open spec fn view(&self) -> SegmentModel {
        match self {
            JsonPathSegment::Key(key) => SegmentModel::Key(key@),
            JsonPathSegment::Index(index) => SegmentModel::Index(*index),
        }
    }
}

/// What a path holds.
pub open spec fn path_model(path: Seq<JsonPathSegment>) -> Seq<SegmentModel> {
    path.map_values(|segment: JsonPathSegment| segment@)
}

impl Clone for JsonPathSegment {
    fn clone(&self) -> (copy: Self)
        ensures
            copy == *self,
    {
        match self {
            JsonPathSegment::Key(key) => JsonPathSegment::Key(key.clone()),
            JsonPathSegment::Index(index) => JsonPathSegment::Index(*index),
        }
    }
}

impl From<&str> for JsonPathSegment {
    fn from(key: &str) -> (segment: Self)
        ensures
            segment@ == SegmentModel::Key(key@),
    {
        JsonPathSegment::Key(key.to_owned())
    }
}

impl vstd::std_specs::convert::FromSpecImpl<&str> for JsonPathSegment {
    open spec fn obeys_from_spec() -> bool {
        false
    }

    open spec fn from_spec(key: &str) -> Self {
        arbitrary()
    }
}

impl From<String> for JsonPathSegment {
    fn from(key: String) -> (segment: Self) {
        JsonPathSegment::Key(key)
    }
}

impl vstd::std_specs::convert::FromSpecImpl<String> for JsonPathSegment {
    open spec fn obeys_from_spec() -> bool {
        true
    }

    open spec fn from_spec(key: String) -> Self {
        JsonPathSegment::Key(key)
    }
}

impl From<usize> for JsonPathSegment {
    fn from(index: usize) -> (segment: Self) {
        JsonPathSegment::Index(index)
    }
}

impl vstd::std_specs::convert::FromSpecImpl<usize> for JsonPathSegment {
    open spec fn obeys_from_spec() -> bool {
        true
    }

    open spec fn from_spec(index: usize) -> Self {
        JsonPathSegment::Index(index)
    }
}

// ---------------------------------------------------------------------------
// Syntax trees
// ---------------------------------------------------------------------------

/// The byte ranges of a JSON text and its parts.
#[derive(Debug)]
pub enum SpanTree {
    /// A string, number, boolean or null.
    Leaf { start: usize, end: usize },
    Array { start: usize, end: usize, items: Vec<SpanTree> },
    Object { start: usize, end: usize, members: Vec<(String, SpanTree)> },
}

/// What a tree of byte ranges holds.
pub enum SpanModel {
    Leaf { start: usize, end: usize },
    Array { start: usize, end: usize, items: Seq<SpanModel> },
    Object { start: usize, end: usize, members: Seq<(Seq<char>, SpanModel)> },
}

/// What a tree of byte ranges holds.
pub open spec fn span_model(tree: SpanTree) -> SpanModel
    decreases tree,
{
    match tree {
        SpanTree::Leaf { start, end } => SpanModel::Leaf { start, end },
        SpanTree::Array { start, end, items } => SpanModel::Array {
            start,
            end,
            items: Seq::new(
                items@.len(),
                |i: int|
                    if 0 <= i < items@.len() {
                        span_model(items@[i])
                    } else {
                        SpanModel::Leaf { start, end }
                    },
            ),
        },
        SpanTree::Object { start, end, members } => SpanModel::Object {
            start,
            end,
            members: Seq::new(
                members@.len(),
                |i: int|
                    if 0 <= i < members@.len() {
                        (members@[i].0@, span_model(members@[i].1))
                    } else {
                        (Seq::empty(), SpanModel::Leaf { start, end })
                    },
            ),
        },
    }
}

impl View for SpanTree {
    type V = SpanModel;

    open spec fn view(&self) -> SpanModel {
        span_model(*self)
    }
}

impl SpanModel {
    /// The byte range of the whole value.
    pub open spec fn range(self) -> (usize, usize) {
        match self {
            SpanModel::Leaf { start, end } => (start, end),
            SpanModel::Array { start, end, .. } => (start, end),
            SpanModel::Object { start, end, .. } => (start, end),
        }
    }
}

/// Whether the byte ranges of a value and its parts stand within bounds: none is
/// empty, and the parts of an array or an object stand between its brackets.
pub open spec fn nests(tree: SpanModel, from: int, to: int) -> bool
    decreases tree,
{
    let (start, end) = tree.range();
    &&& from <= start < end <= to
    &&& match tree {
        SpanModel::Leaf { .. } => true,
        SpanModel::Array { items, .. } => forall|i: int|
            0 <= i < items.len() ==> nests(#[trigger] items[i], start + 1, end - 1),
        SpanModel::Object { members, .. } => forall|i: int|
            0 <= i < members.len() ==> nests((#[trigger] members[i]).1, start + 1, end - 1),
    }
}

/// What `jsonc_parser::parse_to_ast` finds in a text with its default options,
/// if it succeeds and finds a value.
pub uninterp spec fn text_ast(text: Seq<char>) -> Option<jsonc_parser::ast::Value<'static>>;

/// The byte ranges that a syntax tree of `jsonc_parser` holds.
pub uninterp spec fn ast_spans(ast: jsonc_parser::ast::Value<'static>) -> SpanModel;

/// Calls `jsonc_parser::parse_to_ast` with default options and without
/// collecting comments or tokens; the outcome depends on the text alone. The
/// ranges of the tree stand within the bytes of the text, those of the parts of
/// an array or an object between its brackets.
#[verifier::external_body]
fn parse_ast(text: &str) -> (ast: Option<jsonc_parser::ast::Value<'_>>)
    ensures
        ast == text_ast(text@),
        ast is Some ==> nests(ast_spans(ast->0), 0, encode_utf8(text@).len() as int),
{
    jsonc_parser::parse_to_ast(
        text,
        &jsonc_parser::CollectOptions {
            comments: jsonc_parser::CommentCollectionStrategy::Off,
            tokens: false,
        },
        &jsonc_parser::ParseOptions::default(),
    ).ok().and_then(|parsed| parsed.value)
}

/// Takes the byte ranges out of a syntax tree of `jsonc_parser`, node by node,
/// with the names of the members of objects.
#[verifier::external_body]
fn spans_of_ast(ast: &jsonc_parser::ast::Value<'_>) -> (tree: SpanTree)
    ensures
        tree@ == ast_spans(*ast),
{
    let (start, end) = (ast.start(), ast.end());
    match ast {
        jsonc_parser::ast::Value::Array(array) => {
            let items = array.elements.iter().map(spans_of_ast).collect();
            SpanTree::Array { start, end, items }
        },
        jsonc_parser::ast::Value::Object(object) => {
            let member = |p: &jsonc_parser::ast::ObjectProp<'_>| (
                p.name.as_str().to_owned(), spans_of_ast(&p.value));
            let members = object.properties.iter().map(member).collect();
            SpanTree::Object { start, end, members }
        },
        _ => SpanTree::Leaf { start, end },
    }
}

/// What the text of a JSON value holds, if it is one.
pub open spec fn text_spans(text: Seq<char>) -> Option<SpanModel> {
    match text_ast(text) {
        Some(ast) => Some(ast_spans(ast)),
        None => None,
    }
}

// ---------------------------------------------------------------------------
// Ranges by path
// ---------------------------------------------------------------------------

/// The position of the first member `key`, or the number of members.
pub open spec fn span_member_index(members: Seq<(Seq<char>, SpanModel)>, key: Seq<char>) -> int
    decreases members.len(),
{
    if members.len() == 0 || members[0].0 == key {
        0
    } else {
        1 + span_member_index(members.drop_first(), key)
    }
}

/// The byte range of the value at `path`: `None` if a member or an item is not
/// there, or if a step does not fit the value it is taken from.
pub open spec fn range_at(tree: SpanModel, path: Seq<SegmentModel>) -> Option<(usize, usize)>
    decreases path.len(),
{
    if path.len() == 0 {
        Some(tree.range())
    } else {
        match (path[0], tree) {
            (SegmentModel::Key(key), SpanModel::Object { members, .. }) => {
                let at = span_member_index(members, key);
                if at < members.len() {
                    range_at(members[at].1, path.drop_first())
                } else {
                    None
                }
            },
            (SegmentModel::Index(index), SpanModel::Array { items, .. }) => if index
                < items.len() {
                range_at(items[index as int], path.drop_first())
            } else {
                None
            },
            _ => None,
        }
    }
}

/// The member `key` of an object.
fn find_member<'a>(members: &'a Vec<(String, SpanTree)>, key: &str, Ghost(model): Ghost<
    Seq<(Seq<char>, SpanModel)>,
>) -> (found: Option<&'a SpanTree>)
    requires
        model.len() == members.len(),
        forall|i: int|
            0 <= i < members.len() ==> #[trigger] model[i] == (members@[i].0@, members@[i].1@),
    ensures
        match found {
            Some(tree) => {
                let at = span_member_index(model, key@);
                at < model.len() && model[at].1 == tree@
            },
            None => span_member_index(model, key@) == model.len(),
        },
{
    let mut i: usize = 0;
    assert(model.skip(0) =~= model);
    while i < members.len()
        invariant
            i <= members.len(),
            model.len() == members.len(),
            forall|k: int|
                0 <= k < members.len() ==> #[trigger] model[k] == (members@[k].0@, members@[k].1@),
            span_member_index(model, key@) == i + span_member_index(model.skip(i as int), key@),
        decreases members.len() - i,
    {
        assert(model.skip(i as int)[0] == model[i as int]);
        assert(model.skip(i as int).drop_first() =~= model.skip(i + 1));
        if same_text(members[i].0.as_str(), key) {
            return Some(&members[i].1);
        }
        i += 1;
    }
    None
}

/// The byte range of the value at `path` in a tree.
pub fn find_range(tree: &SpanTree, path: &[JsonPathSegment]) -> (range: Option<(usize, usize)>)
    ensures
        range == range_at(tree@, path_model(path@)),
{
    let ghost steps = path_model(path@);
    let mut current: &SpanTree = tree;
    let mut i: usize = 0;
    assert(steps.skip(0) =~= steps);
    while i < path.len()
        invariant
            i <= path.len(),
            steps == path_model(path@),
            range_at(tree@, steps) == range_at(current@, steps.skip(i as int)),
        decreases path.len() - i,
    {
        assert(steps.skip(i as int)[0] == path@[i as int]@);
        assert(steps.skip(i as int).drop_first() =~= steps.skip(i + 1));
        match (&path[i], current) {
            (JsonPathSegment::Key(key), SpanTree::Object { members, .. }) => {
                let ghost model = current@->members;
                match find_member(members, key.as_str(), Ghost(model)) {
                    Some(found) => {
                        current = found;
                    },
                    None => return None,
                }
            },
            (JsonPathSegment::Index(index), SpanTree::Array { items, .. }) => {
                if *index >= items.len() {
                    return None;
                }
                assert(current@->items[*index as int] == items@[*index as int]@);
                current = &items[*index];
            },
            _ => return None,
        }
        i += 1;
    }
    match current {
        SpanTree::Leaf { start, end } => Some((*start, *end)),
        SpanTree::Array { start, end, .. } => Some((*start, *end)),
        SpanTree::Object { start, end, .. } => Some((*start, *end)),
    }
}

/// The bounds of an optional range.
pub open spec fn range_bounds(range: Option<Range<usize>>) -> Option<(usize, usize)> {
    match range {
        Some(r) => Some((r.start, r.end)),
        None => None,
    }
}

/// The byte range of the value at `path` within a JSON text: `None` if the text
/// is no JSON, or if there is no value at the path. The ranges stand within the
/// text, and the parts of a value within it.
pub fn json_path_range(text: &str, path: &[JsonPathSegment]) -> (range: Option<Range<usize>>)
    ensures
        range_bounds(range) == match text_spans(text@) {
            Some(tree) => range_at(tree, path_model(path@)),
            None => None,
        },
        text_spans(text@) matches Some(tree) ==> nests(tree, 0, encode_utf8(text@).len() as int),
{
    match parse_ast(text) {
        Some(ast) => {
            let tree: SpanTree = spans_of_ast(&ast);
            match find_range(&tree, path) {
                Some((start, end)) => Some(Range { start, end }),
                None => None,
            }
        },
        None => None,
    }
}

/// The value at `path`.
pub open spec fn span_at(tree: SpanModel, path: Seq<SegmentModel>) -> Option<SpanModel>
    decreases path.len(),
{
    if path.len() == 0 {
        Some(tree)
    } else {
        match (path[0], tree) {
            (SegmentModel::Key(key), SpanModel::Object { members, .. }) => {
                let at = span_member_index(members, key);
                if at < members.len() {
                    span_at(members[at].1, path.drop_first())
                } else {
                    None
                }
            },
            (SegmentModel::Index(index), SpanModel::Array { items, .. }) => if index
                < items.len() {
                span_at(items[index as int], path.drop_first())
            } else {
                None
            },
            _ => None,
        }
    }
}

/// The position of a member is not negative.
proof fn span_member_index_bounds(members: Seq<(Seq<char>, SpanModel)>, key: Seq<char>)
    ensures
        0 <= span_member_index(members, key) <= members.len(),
    decreases members.len(),
{
    if members.len() > 0 && members[0].0 != key {
        span_member_index_bounds(members.drop_first(), key);
    }
}

/// Ranges nest: where a path leads to a value, the path without its last step
/// leads to the value that this one is a part of. That one is an object if the
/// step is a key and an array if it is an index, its range is strictly wider on
/// both sides, and it stands within the bounds.
pub proof fn ranges_nest(
    tree: SpanModel,
    path: Seq<SegmentModel>,
    step: SegmentModel,
    from: int,
    to: int,
)
    requires
        nests(tree, from, to),
        range_at(tree, path.push(step)) is Some,
    ensures
        range_at(tree, path) is Some,
        span_at(tree, path) is Some,
        span_at(tree, path)->0.range() == range_at(tree, path)->0,
        match step {
            SegmentModel::Key(_) => span_at(tree, path)->0 is Object,
            SegmentModel::Index(_) => span_at(tree, path)->0 is Array,
        },
        ({
            let outer = range_at(tree, path)->0;
            let inner = range_at(tree, path.push(step))->0;
            from <= outer.0 < inner.0 < inner.1 < outer.1 <= to
        }),
    decreases path.len(),
{
    let all = path.push(step);
    let (start, end) = tree.range();
    if path.len() == 0 {
        assert(all[0] == step);
        assert(all.drop_first() =~= Seq::<SegmentModel>::empty());
        match (step, tree) {
            (SegmentModel::Key(key), SpanModel::Object { members, .. }) => {
                span_member_index_bounds(members, key);
                let part = members[span_member_index(members, key)].1;
                assert(nests(part, start + 1, end - 1));
                assert(range_at(part, all.drop_first()) == Some(part.range()));
            },
            (SegmentModel::Index(index), SpanModel::Array { items, .. }) => {
                let part = items[index as int];
                assert(nests(part, start + 1, end - 1));
                assert(range_at(part, all.drop_first()) == Some(part.range()));
            },
            _ => {},
        }
    } else {
        assert(all[0] == path[0]);
        assert(all.drop_first() =~= path.drop_first().push(step));
        match (path[0], tree) {
            (SegmentModel::Key(key), SpanModel::Object { members, .. }) => {
                span_member_index_bounds(members, key);
                let part = members[span_member_index(members, key)].1;
                assert(nests(part, start + 1, end - 1));
                ranges_nest(part, path.drop_first(), step, start + 1, end - 1);
            },
            (SegmentModel::Index(index), SpanModel::Array { items, .. }) => {
                let part = items[index as int];
                assert(nests(part, start + 1, end - 1));
                ranges_nest(part, path.drop_first(), step, start + 1, end - 1);
            },
            _ => {},
        }
    }
}

// ---------------------------------------------------------------------------
// Lines and columns
// ---------------------------------------------------------------------------

/// The offsets at which the lines of a text begin: zero, and behind every line
/// feed.
pub open spec fn line_starts(bytes: Seq<u8>) -> Seq<int>
    decreases bytes.len(),
{
    if bytes.len() == 0 {
        seq![0]
    } else {
        let front = line_starts(bytes.drop_last());
        if bytes.last() == 0x0A {
            front.push(bytes.len() as int)
        } else {
            front
        }
    }
}

/// The number of line feeds among the first `count` bytes.
pub open spec fn line_feeds(bytes: Seq<u8>, count: int) -> int
    decreases count,
{
    if count <= 0 {
        0
    } else {
        line_feeds(bytes, count - 1) + if count <= bytes.len() && bytes[count - 1] == 0x0A {
            1int
        } else {
            0
        }
    }
}

/// Whether offsets ascend from zero.
pub open spec fn ascending_from_zero(starts: Seq<int>) -> bool {
    &&& starts.len() > 0
    &&& starts[0] == 0
    &&& forall|i: int, j: int| 0 <= i < j < starts.len() ==> starts[i] < starts[j]
}

/// The offsets at which lines begin ascend from zero, within the text.
pub proof fn line_starts_ascend(bytes: Seq<u8>)
    ensures
        ascending_from_zero(line_starts(bytes)),
        forall|i: int| 0 <= i < line_starts(bytes).len() ==> #[trigger] line_starts(bytes)[i]
            <= bytes.len(),
    decreases bytes.len(),
{
    if bytes.len() > 0 {
        line_starts_ascend(bytes.drop_last());
    }
}

/// The line that an offset lies in: the last one that begins at it or before.
pub open spec fn line_at(starts: Seq<int>, offset: int) -> int
    decreases starts.len(),
{
    if starts.len() <= 1 || starts.last() <= offset {
        starts.len() - 1
    } else {
        line_at(starts.drop_last(), offset)
    }
}

/// The line of an offset, and its distance from the beginning of the line.
pub open spec fn position_at(starts: Seq<int>, offset: int) -> (int, int) {
    let line = line_at(starts, offset);
    (line, offset - starts[line])
}

/// A line that begins at an offset or before it, while the next does not, is
/// the line of the offset.
proof fn line_at_unique(starts: Seq<int>, offset: int, line: int)
    requires
        ascending_from_zero(starts),
        0 <= line < starts.len(),
        starts[line] <= offset,
        line + 1 < starts.len() ==> offset < starts[line + 1],
    ensures
        line_at(starts, offset) == line,
    decreases starts.len(),
{
    if line + 1 < starts.len() {
        assert(starts[line + 1] <= starts.last());
        let front = starts.drop_last();
        assert(ascending_from_zero(front));
        line_at_unique(front, offset, line);
    }
}

/// The starts of lines, for turning byte offsets into lines and columns. Both
/// count from zero.
pub struct LineIndex {
    line_starts: Vec<usize>,
}

impl View for LineIndex {
    type V = Seq<int>;

    closed spec fn view(&self) -> Seq<int> {
        self.line_starts@.map_values(|start: usize| start as int)
    }
}

impl LineIndex {
    #[verifier::type_invariant]
    spec fn is_valid(self) -> bool {
        ascending_from_zero(self.line_starts@.map_values(|start: usize| start as int))
    }

    /// The index of the lines of `text`.
    pub fn new(text: &str) -> (index: LineIndex)
        ensures
            index@ == line_starts(vstd::utf8::encode_utf8(text@)),
    {
        let bytes: &[u8] = text.as_bytes();
        let mut starts: Vec<usize> = Vec::new();
        starts.push(0);
        let mut i: usize = 0;
        assert(starts@.map_values(|start: usize| start as int) =~= line_starts(bytes@.take(0)));
        while i < bytes.len()
            invariant
                i <= bytes.len(),
                starts@.map_values(|start: usize| start as int) == line_starts(
                    bytes@.take(i as int),
                ),
            decreases bytes.len() - i,
        {
            let ghost done = starts@.map_values(|start: usize| start as int);
            assert(bytes@.take(i + 1).drop_last() =~= bytes@.take(i as int));
            assert(bytes@.take(i + 1).last() == bytes@[i as int]);
            if bytes[i] == 0x0A {
                starts.push(i + 1);
                assert(starts@.map_values(|start: usize| start as int) =~= done.push(i + 1));
            }
            i += 1;
        }
        proof {
            assert(bytes@.take(i as int) =~= bytes@);
            line_starts_ascend(bytes@);
        }
        LineIndex { line_starts: starts }
    }

    /// The line that holds a byte offset, and the column within it. An offset
    /// past the end counts as in the last line.
    pub fn offset_to_position(&self, offset: usize) -> (position: (usize, usize))
        ensures
            position.0 < self@.len(),
            self@[position.0 as int] <= offset,
            position.0 + 1 < self@.len() ==> offset < self@[position.0 + 1],
            position.1 == offset - self@[position.0 as int],
            (position.0 as int, position.1 as int) == position_at(self@, offset as int),
    {
        proof {
            use_type_invariant(self);
        }
        let mut low: usize = 0;
        let mut high: usize = self.line_starts.len();
        assert(self@[0] == 0);
        while high - low > 1
            invariant
                low < high <= self.line_starts.len(),
                self@.len() == self.line_starts.len(),
                forall|k: int| 0 <= k < self@.len() ==> #[trigger] self@[k] == self.line_starts@[k],
                self@[low as int] <= offset,
                high < self@.len() ==> offset < self@[high as int],
            decreases high - low,
        {
            let middle: usize = low + (high - low) / 2;
            assert(self@[middle as int] == self.line_starts@[middle as int]);
            if self.line_starts[middle] <= offset {
                low = middle;
            } else {
                high = middle;
            }
        }
        proof {
            line_at_unique(self@, offset as int, low as int);
        }
        (low, offset - self.line_starts[low])
    }

    /// The number of lines.
    pub fn line_count(&self) -> (count: usize)
        ensures
            count == self@.len(),
            count > 0,
    {
        proof {
            use_type_invariant(self);
        }
        self.line_starts.len()
    }
}

/// The line of an offset is the number of line feeds before it.
pub proof fn line_counts_line_feeds(bytes: Seq<u8>, offset: int, line: int)
    requires
        0 <= offset,
        0 <= line < line_starts(bytes).len(),
        line_starts(bytes)[line] <= offset,
        line + 1 < line_starts(bytes).len() ==> offset < line_starts(bytes)[line + 1],
    ensures
        line == line_feeds(bytes, offset),
    decreases bytes.len(),
{
    if bytes.len() == 0 {
        no_line_feeds(bytes, 0, offset);
    } else {
        let front = bytes.drop_last();
        let starts = line_starts(bytes);
        let before = line_starts(front);
        line_starts_ascend(front);
        line_starts_ascend(bytes);
        if bytes.last() == 0x0A && line == starts.len() - 1 {
            // The offset lies behind the last line feed.
            assert(offset >= bytes.len());
            line_counts_line_feeds(front, bytes.len() - 1, line - 1);
            same_line_feeds(front, bytes, bytes.len() - 1);
            no_line_feeds(bytes, bytes.len() as int, offset);
        } else {
            if bytes.last() == 0x0A {
                assert(starts[line] == before[line]);
                assert(line + 1 < before.len() ==> starts[line + 1] == before[line + 1]);
                assert(offset < bytes.len()) by {
                    if line + 1 == before.len() {
                        assert(starts[line + 1] == bytes.len());
                    } else {
                        assert(before[line + 1] <= front.len());
                    }
                }
            }
            line_counts_line_feeds(front, offset, line);
            if offset <= front.len() {
                same_line_feeds(front, bytes, offset);
            } else {
                same_line_feeds(front, bytes, front.len() as int);
                no_line_feeds(front, front.len() as int, offset);
                assert(line_feeds(bytes, bytes.len() as int) == line_feeds(
                    bytes,
                    front.len() as int,
                ));
                no_line_feeds(bytes, bytes.len() as int, offset);
            }
        }
    }
}

/// Past the end there are no line feeds.
proof fn no_line_feeds(bytes: Seq<u8>, from: int, count: int)
    requires
        bytes.len() <= from,
        from <= count,
    ensures
        line_feeds(bytes, count) == line_feeds(bytes, from),
    decreases count - from,
{
    if from < count {
        no_line_feeds(bytes, from, count - 1);
    }
}

/// Equal beginnings hold equally many line feeds.
proof fn same_line_feeds(front: Seq<u8>, bytes: Seq<u8>, count: int)
    requires
        front == bytes.drop_last(),
        bytes.len() > 0,
        count <= front.len(),
    ensures
        line_feeds(front, count) == line_feeds(bytes, count),
    decreases count,
{
    if count > 0 {
        same_line_feeds(front, bytes, count - 1);
        assert(front[count - 1] == bytes[count - 1]);
    }
}

} // verus!
