//! session2graph: a session transcript as a graph of messages and tool calls.
//!
//! Each block of a message becomes a component; links say which component
//! answered, invoked or produced which. A transcript is one JSON document per
//! line.

use crate::json::Json;
use crate::json::JsonNumber;
use crate::json::JsonView;
use crate::json::as_text;
use crate::json::first_two;
use crate::json::first_two_values;
use crate::json::json_parsed;
use crate::json::json_rendered;
use crate::json::law_first_two_come_first;
use crate::json::lemma_models;
use crate::json::member;
use crate::json::models;
use crate::json::optional_text;
use crate::json::parse_json;
use crate::json::render_json;
use crate::text::CharClass;
use crate::text::byte_len;
use crate::text::concat2;
use crate::text::concat3;
use crate::text::decimal;
use crate::text::digits_value;
use crate::text::fitting;
use crate::text::format_padded;
use crate::text::format_usize;
use crate::text::head_within;
use crate::text::is_digit;
use crate::text::join;
use crate::text::joined;
use crate::text::lemma_byte_len_concat;
use crate::text::lemma_fitting;
use crate::text::lemma_padded_value;
use crate::text::lines;
use crate::text::lines_of;
use crate::text::opt_text;
use crate::text::padded;
use crate::text::prefix_within;
use crate::text::replace_char;
use crate::text::replaced;
use crate::text::text_eq;
use crate::text::text_len;
use crate::text::text_less;
use crate::text::texts;
use crate::text::trim;
use crate::text::trimmed;
use crate::text_map::TextMap;
use vstd::prelude::*;

verus! {

// ─── Input ──────────────────────────────────────────────────────────────────

/// One line of a transcript, as far as the graph reads it.
#[derive(Debug)]
pub struct SessionLine {
    pub message: Option<Message>,
}

#[derive(Debug)]
pub struct Message {
    pub role: String,
    pub content: MessageContent,
}

#[derive(Debug)]
pub enum MessageContent {
    Empty,
    Text(String),
    Blocks(Vec<ContentBlock>),
}

#[derive(Debug)]
pub enum ContentBlock {
    Text { text: String },
    ToolUse { id: String, name: String, input: Json },
    ToolResult { tool_use_id: String, content: Json },
    Thinking { thinking: String },
    Unknown,
}

/// The model of a content block.
pub ghost enum BlockView {
    Text(Seq<char>),
    ToolUse { id: Seq<char>, name: Seq<char>, input: JsonView },
    ToolResult { tool_use_id: Seq<char>, content: JsonView },
    Thinking(Seq<char>),
    Unknown,
}

impl View for ContentBlock {
    type V = BlockView;

    open spec fn view(&self) -> BlockView {
        match self {
            ContentBlock::Text { text } => BlockView::Text(text@),
            ContentBlock::ToolUse { id, name, input } => BlockView::ToolUse {
                id: id@,
                name: name@,
                input: input@,
            },
            ContentBlock::ToolResult { tool_use_id, content } => BlockView::ToolResult {
                tool_use_id: tool_use_id@,
                content: content@,
            },
            ContentBlock::Thinking { thinking } => BlockView::Thinking(thinking@),
            ContentBlock::Unknown => BlockView::Unknown,
        }
    }
}

/// The role of the line's message.
pub open spec fn line_role(line: SessionLine) -> Seq<char> {
    match line.message {
        Some(m) => m.role@,
        None => Seq::empty(),
    }
}

/// The blocks of the line's message; a message that is plain text is one text block.
pub open spec fn line_blocks(line: SessionLine) -> Seq<BlockView> {
    match line.message {
        Some(m) => match m.content {
            MessageContent::Empty => Seq::empty(),
            MessageContent::Text(s) => seq![BlockView::Text(s@)],
            MessageContent::Blocks(b) => block_views(b@),
        },
        None => Seq::empty(),
    }
}

pub open spec fn block_views(blocks: Seq<ContentBlock>) -> Seq<BlockView> {
    Seq::new(blocks.len(), |i: int| blocks[i]@)
}

// ─── Output ─────────────────────────────────────────────────────────────────

/// The graph of a transcript.
#[derive(Debug)]
pub struct ArchGraph {
    pub components: Vec<Component>,
    pub links: Vec<Link>,
}

#[derive(Debug)]
pub struct Component {
    pub id: String,
    pub title: String,
    pub entity: String,
}

#[derive(Debug)]
pub struct Link {
    pub from: String,
    pub to: String,
    pub kind: String,
}

pub ghost struct ComponentView {
    pub id: Seq<char>,
    pub title: Seq<char>,
    pub entity: Seq<char>,
}

pub ghost struct LinkView {
    pub from: Seq<char>,
    pub to: Seq<char>,
    pub kind: Seq<char>,
}

impl View for Component {
    type V = ComponentView;

    open spec fn view(&self) -> ComponentView {
        ComponentView { id: self.id@, title: self.title@, entity: self.entity@ }
    }
}

impl View for Link {
    type V = LinkView;

    open spec fn view(&self) -> LinkView {
        LinkView { from: self.from@, to: self.to@, kind: self.kind@ }
    }
}

pub open spec fn component_views(v: Seq<Component>) -> Seq<ComponentView> {
    Seq::new(v.len(), |i: int| v[i]@)
}

pub open spec fn link_views(v: Seq<Link>) -> Seq<LinkView> {
    Seq::new(v.len(), |i: int| v[i]@)
}

// ─── Titles ─────────────────────────────────────────────────────────────────

/// Longest message text in a title, in bytes.
pub const MESSAGE_MAX: usize = 60;

/// Longest tool argument in a title, in bytes.
pub const ARGUMENT_MAX: usize = 30;

/// `s` on one line, cut to `max` bytes with an ellipsis where it is longer.
pub open spec fn truncated(s: Seq<char>, max: nat) -> Seq<char> {
    let line = replaced(s, '\n', ' ');
    if byte_len(line) <= max {
        line
    } else {
        prefix_within(line, max) + "..."@
    }
}

/// Whether `s` can be cut to `max` bytes: it is no longer, or a character ends there.
pub open spec fn cuttable(s: Seq<char>, max: nat) -> bool {
    let line = replaced(s, '\n', ' ');
    byte_len(line) <= max || byte_len(prefix_within(line, max)) == max
}

/// `s` on one line, cut to `max` bytes with an ellipsis where it is longer.
pub fn truncate(s: &str, max: usize) -> (r: String)
    requires
        cuttable(s@, max as nat),
    ensures
        r@ == truncated(s@, max as nat),
{
    let line = replace_char(s, '\n', ' ');
    if text_len(line.as_str()) <= max {
        line
    } else {
        let mut out = head_within(line.as_str(), max);
        out.append("...");
        out
    }
}

/// Whether `truncate` can cut `s` to `max` bytes.
pub fn can_truncate(s: &str, max: usize) -> (r: bool)
    ensures
        r == cuttable(s@, max as nat),
{
    let line = replace_char(s, '\n', ' ');
    if text_len(line.as_str()) <= max {
        true
    } else {
        let head = head_within(line.as_str(), max);
        text_len(head.as_str()) == max
    }
}

/// The text of a tool argument: a string itself, any other value as JSON.
pub open spec fn argument_text(v: JsonView) -> Seq<char> {
    match v {
        JsonView::Str(s) => s,
        _ => json_rendered(v),
    }
}

/// The first two arguments of a tool call, in ascending order of their names.
pub open spec fn shown_arguments(input: JsonView) -> Seq<Seq<char>> {
    match input {
        JsonView::Object(m) => first_two(m).map_values(|v: JsonView| argument_text(v)),
        _ => Seq::empty(),
    }
}

/// The title of a tool call: its name and its first two arguments.
pub open spec fn tool_use_title_of(name: Seq<char>, input: JsonView) -> Seq<char> {
    "tool_use: "@ + name + "("@ + joined(
        shown_arguments(input).map_values(|a: Seq<char>| truncated(a, ARGUMENT_MAX as nat)),
        ", "@,
    ) + ")"@
}

/// Whether the arguments of a tool call can be cut for its title.
pub open spec fn arguments_cuttable(input: JsonView) -> bool {
    forall|i: int|
        0 <= i < shown_arguments(input).len() ==> cuttable(
            #[trigger] shown_arguments(input)[i],
            ARGUMENT_MAX as nat,
        )
}

fn argument(v: &Json) -> (r: String)
    ensures
        r@ == argument_text(v@),
{
    match v {
        Json::Str(s) => s.clone(),
        Json::Number(_) => render_json(v),
        _ => render_json(v),
    }
}

/// The first two arguments of a tool call, as text.
fn arguments(input: &Json) -> (r: Vec<String>)
    ensures
        texts(r@) == shown_arguments(input@),
{
    let mut out: Vec<String> = Vec::new();
    match input {
        Json::Object(members) => {
            let values = first_two_values(members);
            proof {
                lemma_models(values@);
            }
            let mut i: usize = 0;
            while i < values.len()
                invariant
                    i <= values@.len(),
                    out@.len() == i,
                    models(values@).len() == values@.len(),
                    forall|k: int|
                        0 <= k < values@.len() ==> #[trigger] models(values@)[k] == values@[k]@,
                    forall|k: int|
                        0 <= k < i ==> (#[trigger] out@[k])@ == argument_text(models(values@)[k]),
                decreases values@.len() - i,
            {
                let ghost v = models(values@)[i as int];
                out.push(argument(&values[i]));
                i += 1;
            }
            assert(texts(out@) =~= shown_arguments(input@));
        },
        Json::Number(_) => {
            assert(texts(out@) =~= shown_arguments(input@));
        },
        _ => {
            assert(texts(out@) =~= shown_arguments(input@));
        },
    }
    out
}

/// The title of a tool call.
pub fn tool_use_title(name: &str, input: &Json) -> (r: String)
    requires
        arguments_cuttable(input@),
    ensures
        r@ == tool_use_title_of(name@, input@),
{
    let shown = arguments(input);
    let mut parts: Vec<String> = Vec::new();
    let mut i: usize = 0;
    while i < shown.len()
        invariant
            i <= shown@.len(),
            parts@.len() == i,
            texts(shown@) == shown_arguments(input@),
            arguments_cuttable(input@),
            forall|k: int|
                0 <= k < i ==> (#[trigger] parts@[k])@ == truncated(
                    shown@[k]@,
                    ARGUMENT_MAX as nat,
                ),
        decreases shown@.len() - i,
    {
        assert(texts(shown@)[i as int] == shown@[i as int]@);
        assert(cuttable(shown_arguments(input@)[i as int], ARGUMENT_MAX as nat));
        parts.push(truncate(shown[i].as_str(), ARGUMENT_MAX));
        i += 1;
    }
    let args = join(&parts, ", ");
    proof {
        assert(texts(shown@).len() == shown@.len());
        assert forall|k: int| 0 <= k < shown@.len() implies texts(shown@)[k] == (
        #[trigger] shown@[k])@ by {}
        assert(texts(parts@) =~= shown_arguments(input@).map_values(
            |a: Seq<char>| truncated(a, ARGUMENT_MAX as nat),
        ));
    }
    let mut out = "tool_use: ".to_owned();
    out.append(name);
    out.append("(");
    out.append(args.as_str());
    out.append(")");
    out
}

/// Whether `tool_use_title` can cut the arguments of the call.
pub fn can_title_tool_use(input: &Json) -> (r: bool)
    ensures
        r == arguments_cuttable(input@),
{
    let shown = arguments(input);
    let mut i: usize = 0;
    assert(texts(shown@).len() == shown@.len());
    while i < shown.len()
        invariant
            i <= shown@.len(),
            texts(shown@) == shown_arguments(input@),
            texts(shown@).len() == shown@.len(),
            forall|k: int|
                0 <= k < i ==> cuttable(
                    #[trigger] shown_arguments(input@)[k],
                    ARGUMENT_MAX as nat,
                ),
        decreases shown@.len() - i,
    {
        assert(texts(shown@)[i as int] == shown@[i as int]@);
        if !can_truncate(shown[i].as_str(), ARGUMENT_MAX) {
            assert(!cuttable(shown_arguments(input@)[i as int], ARGUMENT_MAX as nat));
            return false;
        }
        i += 1;
    }
    true
}

/// The size of an item of a tool result: that of its text, where it has one.
pub open spec fn item_size(item: JsonView) -> nat {
    match as_text(member(item, "text"@)) {
        Some(t) => byte_len(t),
        None => 0,
    }
}

pub open spec fn items_size(items: Seq<JsonView>) -> nat
    decreases items.len(),
{
    if items.len() == 0 {
        0
    } else {
        items_size(items.drop_last()) + item_size(items.last())
    }
}

/// The size of a tool result in bytes: of the text, of the texts of its items, or
/// of its JSON.
pub open spec fn result_size(content: JsonView) -> nat {
    match content {
        JsonView::Str(s) => byte_len(s),
        JsonView::Array(items) => items_size(items),
        _ => byte_len(json_rendered(content)),
    }
}

pub open spec fn tool_result_title_of(content: JsonView) -> Seq<char> {
    "tool_result: ["@ + decimal(result_size(content)) + " chars]"@
}

/// The size of a tool result, where it is a `usize`.
fn measure_result(content: &Json) -> (r: Option<usize>)
    ensures
        r == if result_size(content@) <= usize::MAX {
            Some(result_size(content@) as usize)
        } else {
            None
        },
{
    match content {
        Json::Str(s) => Some(text_len(s.as_str())),
        Json::Array(items) => {
            let mut total: usize = 0;
            let mut i: usize = 0;
            proof {
                lemma_models(items@);
                assert(models(items@).take(0) =~= Seq::<JsonView>::empty());
            }
            while i < items.len()
                invariant
                    i <= items@.len(),
                    *content == Json::Array(*items),
                    models(items@).len() == items@.len(),
                    forall|k: int|
                        0 <= k < items@.len() ==> #[trigger] models(items@)[k] == items@[k]@,
                    total == items_size(models(items@).take(i as int)),
                decreases items@.len() - i,
            {
                let size: usize = match items[i].str_member("text") {
                    Some(t) => text_len(t),
                    None => 0,
                };
                proof {
                    assert(models(items@)[i as int] == items@[i as int]@);
                    assert(models(items@).take(i + 1).drop_last() =~= models(items@).take(
                        i as int,
                    ));
                    assert(size == item_size(models(items@)[i as int]));
                }
                if size > usize::MAX - total {
                    proof {
                        lemma_items_size_grows(models(items@), i + 1);
                    }
                    return None;
                }
                total += size;
                i += 1;
            }
            assert(models(items@).take(items@.len() as int) =~= models(items@));
            Some(total)
        },
        Json::Number(_) => {
            let text = render_json(content);
            Some(text_len(text.as_str()))
        },
        _ => {
            let text = render_json(content);
            Some(text_len(text.as_str()))
        },
    }
}

proof fn lemma_items_size_grows(items: Seq<JsonView>, k: int)
    requires
        0 <= k <= items.len(),
    ensures
        items_size(items.take(k)) <= items_size(items),
    decreases items.len(),
{
    if k == items.len() {
        assert(items.take(k) =~= items);
    } else {
        assert(items.drop_last().take(k) =~= items.take(k));
        lemma_items_size_grows(items.drop_last(), k);
    }
}

/// The title of a tool result.
pub fn tool_result_title(content: &Json) -> (r: String)
    requires
        result_size(content@) <= usize::MAX,
    ensures
        r@ == tool_result_title_of(content@),
{
    let len: usize = match measure_result(content) {
        Some(n) => n,
        None => 0,
    };
    let digits = format_usize(len);
    let mut out = "tool_result: [".to_owned();
    out.append(digits.as_str());
    out.append(" chars]");
    out
}

// ─── The graph of a sequence of blocks ──────────────────────────────────────

/// The model of a graph under construction.
#[verifier::ext_equal]
pub ghost struct GraphView {
    pub components: Seq<ComponentView>,
    pub links: Seq<LinkView>,
    /// How many ids were given out.
    pub counter: nat,
    /// The component of each tool call, by the id of the call.
    pub tool_use_ids: Map<Seq<char>, Seq<char>>,
    /// The last component that an assistant produced.
    pub last_assistant_id: Option<Seq<char>>,
    /// The last component that an assistant answers.
    pub last_user_id: Option<Seq<char>>,
}

/// The `n`-th id with the prefix.
pub open spec fn numbered(prefix: Seq<char>, n: nat) -> Seq<char> {
    prefix + "_"@ + padded(n, 3)
}

/// `links`, and one more from `from` to `to` where there is a `from`.
pub open spec fn linked(
    links: Seq<LinkView>,
    from: Option<Seq<char>>,
    to: Seq<char>,
    kind: Seq<char>,
) -> Seq<LinkView> {
    match from {
        Some(f) => links.push(LinkView { from: f, to, kind }),
        None => links,
    }
}

/// The component that a tool result belongs to.
pub open spec fn call_of(g: GraphView, tool_use_id: Seq<char>) -> Option<Seq<char>> {
    if g.tool_use_ids.contains_key(tool_use_id) {
        Some(g.tool_use_ids[tool_use_id])
    } else {
        None
    }
}

/// The graph after a text, said by the user or by the assistant.
pub open spec fn text_applied(g: GraphView, role: Seq<char>, text: Seq<char>) -> GraphView {
    let id = numbered("msg"@, g.counter + 1);
    if role == "user"@ {
        GraphView {
            components: g.components.push(
                ComponentView {
                    id,
                    title: "user: "@ + truncated(text, MESSAGE_MAX as nat),
                    entity: "user_message"@,
                },
            ),
            links: linked(g.links, g.last_assistant_id, id, "response"@),
            counter: g.counter + 1,
            last_user_id: Some(id),
            ..g
        }
    } else if role == "assistant"@ {
        GraphView {
            components: g.components.push(
                ComponentView {
                    id,
                    title: "assistant: "@ + truncated(text, MESSAGE_MAX as nat),
                    entity: "assistant_message"@,
                },
            ),
            links: linked(g.links, g.last_user_id, id, "response"@),
            counter: g.counter + 1,
            last_assistant_id: Some(id),
            ..g
        }
    } else {
        g
    }
}

/// The graph after one more block of a message with the role.
pub open spec fn block_applied(g: GraphView, role: Seq<char>, block: BlockView) -> GraphView {
    match block {
        BlockView::Text(text) => text_applied(g, role, text),
        BlockView::ToolUse { id: call, name, input } => {
            let id = numbered("tool"@, g.counter + 1);
            GraphView {
                components: g.components.push(
                    ComponentView {
                        id,
                        title: tool_use_title_of(name, input),
                        entity: "tool_use"@,
                    },
                ),
                links: linked(g.links, g.last_assistant_id, id, "invocation"@),
                counter: g.counter + 1,
                tool_use_ids: g.tool_use_ids.insert(call, id),
                ..g
            }
        },
        BlockView::ToolResult { tool_use_id, content } => {
            let id = numbered("tool"@, g.counter + 1) + "r"@;
            GraphView {
                components: g.components.push(
                    ComponentView {
                        id,
                        title: tool_result_title_of(content),
                        entity: "tool_result"@,
                    },
                ),
                links: linked(g.links, call_of(g, tool_use_id), id, "result"@),
                counter: g.counter + 1,
                last_user_id: Some(id),
                ..g
            }
        },
        BlockView::Thinking(thinking) => {
            let id = numbered("msg"@, g.counter + 1);
            GraphView {
                components: g.components.push(
                    ComponentView {
                        id,
                        title: "thinking: "@ + truncated(thinking, MESSAGE_MAX as nat),
                        entity: "thinking"@,
                    },
                ),
                links: linked(g.links, g.last_user_id, id, "response"@),
                counter: g.counter + 1,
                last_assistant_id: Some(id),
                ..g
            }
        },
        BlockView::Unknown => g,
    }
}

/// The graph after the blocks of a message with the role.
pub open spec fn blocks_applied(
    g: GraphView,
    role: Seq<char>,
    blocks: Seq<BlockView>,
) -> GraphView
    decreases blocks.len(),
{
    if blocks.len() == 0 {
        g
    } else {
        block_applied(blocks_applied(g, role, blocks.drop_last()), role, blocks.last())
    }
}

/// The graph after the lines of a transcript.
pub open spec fn lines_applied(g: GraphView, lines: Seq<SessionLine>) -> GraphView
    decreases lines.len(),
{
    if lines.len() == 0 {
        g
    } else {
        let line = lines.last();
        blocks_applied(lines_applied(g, lines.drop_last()), line_role(line), line_blocks(line))
    }
}

/// The graph of nothing.
pub open spec fn empty_graph() -> GraphView {
    GraphView {
        components: Seq::empty(),
        links: Seq::empty(),
        counter: 0,
        tool_use_ids: Map::empty(),
        last_assistant_id: None,
        last_user_id: None,
    }
}

/// Whether the block has a title: its texts can be cut, its size is a `usize`.
pub open spec fn block_fits(role: Seq<char>, block: BlockView) -> bool {
    match block {
        BlockView::Text(text) => (role == "user"@ || role == "assistant"@) ==> cuttable(
            text,
            MESSAGE_MAX as nat,
        ),
        BlockView::ToolUse { input, .. } => arguments_cuttable(input),
        BlockView::ToolResult { content, .. } => result_size(content) <= usize::MAX,
        BlockView::Thinking(thinking) => cuttable(thinking, MESSAGE_MAX as nat),
        BlockView::Unknown => true,
    }
}

/// Whether every block of the line has a title.
pub open spec fn line_fits(line: SessionLine) -> bool {
    forall|i: int|
        0 <= i < line_blocks(line).len() ==> block_fits(
            line_role(line),
            #[trigger] line_blocks(line)[i],
        )
}

// ─── The builder ────────────────────────────────────────────────────────────

/// Builds the graph of a transcript, line by line.
pub struct GraphBuilder {
    components: Vec<Component>,
    links: Vec<Link>,
    counter: usize,
    tool_use_ids: TextMap<String>,
    last_assistant_id: Option<String>,
    last_user_id: Option<String>,
}

impl View for GraphBuilder {
    type V = GraphView;

    closed spec fn view(&self) -> GraphView {
        GraphView {
            components: component_views(self.components@),
            links: link_views(self.links@),
            counter: self.counter as nat,
            tool_use_ids: self.tool_use_ids@.map_values(|s: String| s@),
            last_assistant_id: opt_text(self.last_assistant_id),
            last_user_id: opt_text(self.last_user_id),
        }
    }
}

impl GraphBuilder {
    pub closed spec fn wf(&self) -> bool {
        self.tool_use_ids.wf()
    }

    /// A builder that has read nothing.
    pub fn new() -> (r: Self)
        ensures
            r.wf(),
            r@ == empty_graph(),
    {
        let r = GraphBuilder {
            components: Vec::new(),
            links: Vec::new(),
            counter: 0,
            tool_use_ids: TextMap::new(),
            last_assistant_id: None,
            last_user_id: None,
        };
        assert(r@ =~= empty_graph());
        r
    }

    /// Gives out the next id with the prefix.
    fn next_id(&mut self, prefix: &str) -> (r: String)
        requires
            old(self).wf(),
            old(self)@.counter < usize::MAX,
        ensures
            final(self).wf(),
            final(self)@ == (GraphView { counter: old(self)@.counter + 1, ..old(self)@ }),
            r@ == numbered(prefix@, old(self)@.counter + 1),
    {
        self.counter = self.counter + 1;
        let digits = format_padded(self.counter as u64, 3);
        concat3(prefix, "_", digits.as_str())
    }

    /// Adds a component.
    fn add_component(&mut self, id: &String, title: String, entity: &str)
        requires
            old(self).wf(),
        ensures
            final(self).wf(),
            final(self)@ == (GraphView {
                components: old(self)@.components.push(
                    ComponentView { id: id@, title: title@, entity: entity@ },
                ),
                ..old(self)@
            }),
    {
        let component = Component { id: id.clone(), title, entity: entity.to_owned() };
        let ghost before = self.components@;
        self.components.push(component);
        proof {
            assert(component_views(before.push(component)) =~= component_views(before).push(
                component@,
            ));
        }
    }

    /// Adds a link from `from`, where there is one, to `to`.
    fn add_link(&mut self, from: Option<String>, to: &String, kind: &str)
        requires
            old(self).wf(),
        ensures
            final(self).wf(),
            final(self)@ == (GraphView {
                links: linked(old(self)@.links, opt_text(from), to@, kind@),
                ..old(self)@
            }),
    {
        match from {
            Some(f) => {
                let link = Link { from: f, to: to.clone(), kind: kind.to_owned() };
                let ghost before = self.links@;
                self.links.push(link);
                proof {
                    assert(link_views(before.push(link)) =~= link_views(before).push(link@));
                }
            },
            None => {},
        }
    }

    /// Adds one block of a message with the role.
    fn process_block(&mut self, role: &str, block: &ContentBlock)
        requires
            old(self).wf(),
            old(self)@.counter < usize::MAX,
            block_fits(role@, block@),
        ensures
            final(self).wf(),
            final(self)@ == block_applied(old(self)@, role@, block@),
    {
        match block {
            ContentBlock::Text { text } => {
                if text_eq(role, "user") {
                    let id = self.next_id("msg");
                    let cut = truncate(text.as_str(), MESSAGE_MAX);
                    let previous = self.last_assistant_id.clone();
                    self.add_link(previous, &id, "response");
                    self.add_component(&id, concat2("user: ", cut.as_str()), "user_message");
                    self.last_user_id = Some(id);
                } else if text_eq(role, "assistant") {
                    let id = self.next_id("msg");
                    let cut = truncate(text.as_str(), MESSAGE_MAX);
                    let previous = self.last_user_id.clone();
                    self.add_link(previous, &id, "response");
                    self.add_component(
                        &id,
                        concat2("assistant: ", cut.as_str()),
                        "assistant_message",
                    );
                    self.last_assistant_id = Some(id);
                }
            },
            ContentBlock::ToolUse { id: call, name, input } => {
                let id = self.next_id("tool");
                let title = tool_use_title(name.as_str(), input);
                let previous = self.last_assistant_id.clone();
                self.add_link(previous, &id, "invocation");
                let ghost before = self.tool_use_ids@;
                self.tool_use_ids.insert(call.clone(), id.clone());
                proof {
                    assert(self.tool_use_ids@.map_values(|s: String| s@) =~= before.map_values(
                        |s: String| s@,
                    ).insert(call@, id@));
                }
                self.add_component(&id, title, "tool_use");
            },
            ContentBlock::ToolResult { tool_use_id, content } => {
                let number = self.next_id("tool");
                let id = concat2(number.as_str(), "r");
                let title = tool_result_title(content);
                let call: Option<String> = match self.tool_use_ids.get(tool_use_id.as_str()) {
                    Some(c) => Some(c.clone()),
                    None => None,
                };
                self.add_link(call, &id, "result");
                self.add_component(&id, title, "tool_result");
                self.last_user_id = Some(id);
            },
            ContentBlock::Thinking { thinking } => {
                let id = self.next_id("msg");
                let cut = truncate(thinking.as_str(), MESSAGE_MAX);
                let previous = self.last_user_id.clone();
                self.add_link(previous, &id, "response");
                self.add_component(&id, concat2("thinking: ", cut.as_str()), "thinking");
                self.last_assistant_id = Some(id);
            },
            ContentBlock::Unknown => {},
        }
    }

    /// Adds the blocks of a line's message.
    pub fn process_line(&mut self, line: &SessionLine)
        requires
            old(self).wf(),
            old(self)@.counter + line_blocks(*line).len() <= usize::MAX,
            line_fits(*line),
        ensures
            final(self).wf(),
            final(self)@ == blocks_applied(old(self)@, line_role(*line), line_blocks(*line)),
            old(self)@.counter <= final(self)@.counter <= old(self)@.counter + line_blocks(
                *line,
            ).len(),
    {
        let ghost start = self@;
        match &line.message {
            Some(message) => match &message.content {
                MessageContent::Blocks(blocks) => {
                    let ghost views = line_blocks(*line);
                    let mut i: usize = 0;
                    assert(views.take(0) =~= Seq::<BlockView>::empty());
                    while i < blocks.len()
                        invariant
                            i <= blocks@.len(),
                            self.wf(),
                            views == block_views(blocks@),
                            views == line_blocks(*line),
                            line_role(*line) == message.role@,
                            line_fits(*line),
                            start.counter + views.len() <= usize::MAX,
                            start.counter <= self@.counter <= start.counter + i,
                            self@ == blocks_applied(start, message.role@, views.take(i as int)),
                        decreases blocks@.len() - i,
                    {
                        proof {
                            assert(views[i as int] == blocks@[i as int]@);
                            assert(block_fits(line_role(*line), line_blocks(*line)[i as int]));
                            assert(views.take(i + 1).drop_last() =~= views.take(i as int));
                        }
                        self.process_block(message.role.as_str(), &blocks[i]);
                        i += 1;
                    }
                    assert(views.take(views.len() as int) =~= views);
                },
                MessageContent::Text(s) => {
                    let ghost views = line_blocks(*line);
                    let block = ContentBlock::Text { text: s.clone() };
                    proof {
                        assert(views.len() == 1 && views[0] == block@);
                        assert(block_fits(line_role(*line), line_blocks(*line)[0]));
                        assert(views.drop_last() =~= Seq::<BlockView>::empty());
                        assert(blocks_applied(start, message.role@, views.drop_last()) == start);
                    }
                    self.process_block(message.role.as_str(), &block);
                },
                MessageContent::Empty => {},
            },
            None => {},
        }
    }

    /// The finished graph.
    pub fn build(self) -> (r: ArchGraph)
        requires
            self.wf(),
        ensures
            component_views(r.components@) == self@.components,
            link_views(r.links@) == self@.links,
    {
        ArchGraph { components: self.components, links: self.links }
    }
}

// ─── Whole transcripts ──────────────────────────────────────────────────────

/// A line of a transcript to be read, with its number in the file.
#[derive(Debug)]
pub struct NumberedLine {
    pub number: usize,
    pub text: String,
}

/// The lines that are not blank, trimmed, with their numbers.
pub open spec fn counted_lines(lines: Seq<Seq<char>>) -> Seq<(nat, Seq<char>)>
    decreases lines.len(),
{
    if lines.len() == 0 {
        Seq::empty()
    } else {
        let front = counted_lines(lines.drop_last());
        let text = trimmed(lines.last(), CharClass::White);
        if text.len() == 0 {
            front
        } else {
            front.push((lines.len(), text))
        }
    }
}

pub open spec fn numbered_views(v: Seq<NumberedLine>) -> Seq<(nat, Seq<char>)> {
    Seq::new(v.len(), |i: int| (v[i].number as nat, v[i].text@))
}

/// The lines of a transcript that are to be read: those that are not blank.
pub fn session_lines(input: &str) -> (r: Vec<NumberedLine>)
    ensures
        numbered_views(r@) == counted_lines(lines_of(input@)),
{
    let all = lines(input);
    let mut out: Vec<NumberedLine> = Vec::new();
    let mut i: usize = 0;
    assert(texts(all@).take(0) =~= Seq::<Seq<char>>::empty());
    assert(numbered_views(out@) =~= counted_lines(texts(all@).take(0)));
    while i < all.len()
        invariant
            i <= all@.len(),
            numbered_views(out@) == counted_lines(texts(all@).take(i as int)),
        decreases all@.len() - i,
    {
        let text = trim(all[i].as_str());
        let ghost next = texts(all@).take(i + 1);
        proof {
            assert(next.drop_last() =~= texts(all@).take(i as int));
            assert(next.last() == all@[i as int]@);
        }
        if !text.as_str().is_empty() {
            let line = NumberedLine { number: i + 1, text };
            proof {
                assert(numbered_views(out@.push(line)) =~= numbered_views(out@).push(
                    ((i + 1) as nat, line.text@),
                ));
            }
            out.push(line);
        }
        i += 1;
    }
    assert(texts(all@).take(all@.len() as int) =~= texts(all@));
    out
}

/// Number of blocks in the lines.
pub open spec fn block_count(lines: Seq<SessionLine>) -> nat
    decreases lines.len(),
{
    if lines.len() == 0 {
        0
    } else {
        block_count(lines.drop_last()) + line_blocks(lines.last()).len()
    }
}

/// Whether every block has a title and an id.
pub open spec fn transcript_fits(lines: Seq<SessionLine>) -> bool {
    &&& forall|i: int| 0 <= i < lines.len() ==> line_fits(#[trigger] lines[i])
    &&& block_count(lines) <= usize::MAX
}

proof fn lemma_block_count_grows(lines: Seq<SessionLine>, k: int)
    requires
        0 <= k <= lines.len(),
    ensures
        block_count(lines.take(k)) <= block_count(lines),
    decreases lines.len(),
{
    if k == lines.len() {
        assert(lines.take(k) =~= lines);
    } else {
        assert(lines.drop_last().take(k) =~= lines.take(k));
        lemma_block_count_grows(lines.drop_last(), k);
    }
}

/// The graph of a transcript.
pub fn convert_lines(lines: &Vec<SessionLine>) -> (r: ArchGraph)
    requires
        transcript_fits(lines@),
    ensures
        component_views(r.components@) == lines_applied(empty_graph(), lines@).components,
        link_views(r.links@) == lines_applied(empty_graph(), lines@).links,
{
    let mut builder = GraphBuilder::new();
    let mut i: usize = 0;
    assert(lines@.take(0) =~= Seq::<SessionLine>::empty());
    while i < lines.len()
        invariant
            i <= lines@.len(),
            transcript_fits(lines@),
            builder.wf(),
            builder@.counter <= block_count(lines@.take(i as int)),
            builder@ == lines_applied(empty_graph(), lines@.take(i as int)),
        decreases lines@.len() - i,
    {
        proof {
            let next = lines@.take(i + 1);
            assert(next.drop_last() =~= lines@.take(i as int));
            assert(next.last() == lines@[i as int]);
            lemma_block_count_grows(lines@, i + 1);
        }
        builder.process_line(&lines[i]);
        i += 1;
    }
    assert(lines@.take(lines@.len() as int) =~= lines@);
    builder.build()
}

fn can_process_block(role: &str, block: &ContentBlock) -> (r: bool)
    ensures
        r == block_fits(role@, block@),
{
    match block {
        ContentBlock::Text { text } => {
            if text_eq(role, "user") || text_eq(role, "assistant") {
                can_truncate(text.as_str(), MESSAGE_MAX)
            } else {
                true
            }
        },
        ContentBlock::ToolUse { input, .. } => can_title_tool_use(input),
        ContentBlock::ToolResult { content, .. } => match measure_result(content) {
            Some(_) => true,
            None => false,
        },
        ContentBlock::Thinking { thinking } => can_truncate(thinking.as_str(), MESSAGE_MAX),
        ContentBlock::Unknown => true,
    }
}

/// The number of blocks of the line, where each of them has a title.
fn fitting_blocks(line: &SessionLine) -> (r: Option<usize>)
    ensures
        match r {
            Some(n) => line_fits(*line) && n == line_blocks(*line).len(),
            None => !line_fits(*line),
        },
{
    match &line.message {
        Some(message) => match &message.content {
            MessageContent::Blocks(blocks) => {
                let mut i: usize = 0;
                while i < blocks.len()
                    invariant
                        i <= blocks@.len(),
                        line_blocks(*line) == block_views(blocks@),
                        line_role(*line) == message.role@,
                        forall|k: int|
                            0 <= k < i ==> block_fits(
                                line_role(*line),
                                #[trigger] line_blocks(*line)[k],
                            ),
                    decreases blocks@.len() - i,
                {
                    assert(line_blocks(*line)[i as int] == blocks@[i as int]@);
                    if !can_process_block(message.role.as_str(), &blocks[i]) {
                        return None;
                    }
                    i += 1;
                }
                Some(blocks.len())
            },
            MessageContent::Text(s) => {
                let block = ContentBlock::Text { text: s.clone() };
                assert(line_blocks(*line)[0] == block@);
                if can_process_block(message.role.as_str(), &block) {
                    Some(1)
                } else {
                    None
                }
            },
            MessageContent::Empty => Some(0),
        },
        None => Some(0),
    }
}

/// Whether `convert_lines` has a title and an id for every block.
pub fn can_convert_lines(lines: &Vec<SessionLine>) -> (r: bool)
    ensures
        r == transcript_fits(lines@),
{
    let mut total: usize = 0;
    let mut i: usize = 0;
    assert(lines@.take(0) =~= Seq::<SessionLine>::empty());
    while i < lines.len()
        invariant
            i <= lines@.len(),
            forall|k: int| 0 <= k < i ==> line_fits(#[trigger] lines@[k]),
            total == block_count(lines@.take(i as int)),
        decreases lines@.len() - i,
    {
        proof {
            let next = lines@.take(i + 1);
            assert(next.drop_last() =~= lines@.take(i as int));
            assert(next.last() == lines@[i as int]);
            lemma_block_count_grows(lines@, i + 1);
        }
        match fitting_blocks(&lines[i]) {
            Some(n) => {
                if n > usize::MAX - total {
                    return false;
                }
                total += n;
            },
            None => {
                assert(!line_fits(lines@[i as int]));
                return false;
            },
        }
        i += 1;
    }
    assert(lines@.take(lines@.len() as int) =~= lines@);
    true
}

/// The graph of a transcript; `None` where some block has no title, because the
/// place at which its text would be cut lies inside a character.
pub fn try_convert_lines(lines: &Vec<SessionLine>) -> (r: Option<ArchGraph>)
    ensures
        match r {
            Some(g) => transcript_fits(lines@) && component_views(g.components@) == lines_applied(
                empty_graph(),
                lines@,
            ).components && link_views(g.links@) == lines_applied(empty_graph(), lines@).links,
            None => !transcript_fits(lines@),
        },
{
    if can_convert_lines(lines) {
        Some(convert_lines(lines))
    } else {
        None
    }
}

// ─── Reading ────────────────────────────────────────────────────────────────

/// The text of a member that may be missing: then it is empty.
pub open spec fn defaulted_text(v: Option<JsonView>) -> Option<Seq<char>> {
    match v {
        Some(JsonView::Str(t)) => Some(t),
        Some(_) => None,
        None => Some(Seq::empty()),
    }
}

/// A value that may be missing: then it is null.
pub open spec fn defaulted_value(v: Option<JsonView>) -> JsonView {
    match v {
        Some(j) => j,
        None => JsonView::Null,
    }
}

/// The kinds of blocks.
#[derive(Debug, Clone, Copy, PartialEq, Eq, Structural)]
pub enum BlockKind {
    Text,
    ToolUse,
    ToolResult,
    Thinking,
    Unknown,
}

/// The kind that a tag names, by its name or by its number.
pub open spec fn kind_of(tag: Option<JsonView>) -> Option<BlockKind> {
    match tag {
        Some(JsonView::Str(t)) => Some(
            if t == "text"@ {
                BlockKind::Text
            } else if t == "tool_use"@ {
                BlockKind::ToolUse
            } else if t == "tool_result"@ {
                BlockKind::ToolResult
            } else if t == "thinking"@ {
                BlockKind::Thinking
            } else {
                BlockKind::Unknown
            },
        ),
        Some(JsonView::Natural(n)) => Some(
            if n == 0 {
                BlockKind::Text
            } else if n == 1 {
                BlockKind::ToolUse
            } else if n == 2 {
                BlockKind::ToolResult
            } else if n == 3 {
                BlockKind::Thinking
            } else {
                BlockKind::Unknown
            },
        ),
        _ => None,
    }
}

/// The block in a JSON object. Its fields in an array are no block.
pub open spec fn block_in(v: JsonView) -> Option<BlockView> {
    match kind_of(member(v, "type"@)) {
        Some(BlockKind::Text) => match as_text(member(v, "text"@)) {
            Some(t) => Some(BlockView::Text(t)),
            None => None,
        },
        Some(BlockKind::ToolUse) => match (
            as_text(member(v, "id"@)),
            as_text(member(v, "name"@)),
        ) {
            (Some(id), Some(name)) => Some(
                BlockView::ToolUse { id, name, input: defaulted_value(member(v, "input"@)) },
            ),
            _ => None,
        },
        Some(BlockKind::ToolResult) => match as_text(member(v, "tool_use_id"@)) {
            Some(tool_use_id) => Some(
                BlockView::ToolResult {
                    tool_use_id,
                    content: defaulted_value(member(v, "content"@)),
                },
            ),
            None => None,
        },
        Some(BlockKind::Thinking) => match defaulted_text(member(v, "thinking"@)) {
            Some(t) => Some(BlockView::Thinking(t)),
            None => None,
        },
        Some(BlockKind::Unknown) => Some(BlockView::Unknown),
        None => None,
    }
}

/// The blocks in a JSON array, where each item is one.
pub open spec fn blocks_in(items: Seq<JsonView>) -> Option<Seq<BlockView>>
    decreases items.len(),
{
    if items.len() == 0 {
        Some(Seq::empty())
    } else {
        match (blocks_in(items.drop_last()), block_in(items.last())) {
            (Some(front), Some(last)) => Some(front.push(last)),
            _ => None,
        }
    }
}

/// The blocks of a message's content: none, a text, or an array of blocks.
pub open spec fn content_in(v: Option<JsonView>) -> Option<Seq<BlockView>> {
    match v {
        None => Some(Seq::empty()),
        Some(JsonView::Null) => Some(Seq::empty()),
        Some(JsonView::Str(t)) => Some(seq![BlockView::Text(t)]),
        Some(JsonView::Array(items)) => blocks_in(items),
        Some(_) => None,
    }
}

/// The role and the blocks of a message in a JSON object. Its fields in an array are no
/// message.
pub open spec fn said_by(v: JsonView) -> Option<(Seq<char>, Seq<BlockView>)> {
    match (v, defaulted_text(member(v, "role"@)), content_in(member(v, "content"@))) {
        (JsonView::Object(_), Some(role), Some(blocks)) => Some((role, blocks)),
        _ => None,
    }
}

/// What a line of a transcript says: the role and the blocks of its message. A line
/// without a message says nothing. A line is a JSON object; its fields in an array are no
/// line.
pub open spec fn said_in(v: JsonView) -> Option<(Seq<char>, Seq<BlockView>)> {
    let said = match member(v, "message"@) {
        None => Some((Seq::empty(), Seq::empty())),
        Some(JsonView::Null) => Some((Seq::empty(), Seq::empty())),
        Some(m) => said_by(m),
    };
    match (
        v,
        defaulted_text(member(v, "type"@)),
        optional_text(member(v, "uuid"@)),
        optional_text(member(v, "parentUuid"@)),
    ) {
        (JsonView::Object(_), Some(_), Some(_), Some(_)) => said,
        _ => None,
    }
}

fn read_defaulted_text(v: &Json, name: &str) -> (r: Option<String>)
    ensures
        match r {
            Some(t) => defaulted_text(member(v@, name@)) == Some(t@),
            None => defaulted_text(member(v@, name@)) is None,
        },
{
    match v.get(name) {
        Some(Json::Str(t)) => Some(t.clone()),
        Some(_) => None,
        None => Some(String::new()),
    }
}

fn read_defaulted_value(v: &Json, name: &str) -> (r: Json)
    ensures
        r@ == defaulted_value(member(v@, name@)),
{
    match v.get(name) {
        Some(j) => j.copied(),
        None => Json::Null,
    }
}

fn read_kind(v: &Json) -> (r: Option<BlockKind>)
    ensures
        r == kind_of(member(v@, "type"@)),
{
    match v.get("type") {
        Some(Json::Str(t)) => Some(
            if text_eq(t.as_str(), "text") {
                BlockKind::Text
            } else if text_eq(t.as_str(), "tool_use") {
                BlockKind::ToolUse
            } else if text_eq(t.as_str(), "tool_result") {
                BlockKind::ToolResult
            } else if text_eq(t.as_str(), "thinking") {
                BlockKind::Thinking
            } else {
                BlockKind::Unknown
            },
        ),
        Some(Json::Number(JsonNumber::Natural(n))) => Some(
            if *n == 0 {
                BlockKind::Text
            } else if *n == 1 {
                BlockKind::ToolUse
            } else if *n == 2 {
                BlockKind::ToolResult
            } else if *n == 3 {
                BlockKind::Thinking
            } else {
                BlockKind::Unknown
            },
        ),
        _ => None,
    }
}

fn read_block(v: &Json) -> (r: Option<ContentBlock>)
    ensures
        match r {
            Some(b) => block_in(v@) == Some(b@),
            None => block_in(v@) is None,
        },
{
    match read_kind(v) {
        Some(BlockKind::Text) => match v.str_member("text") {
            Some(t) => Some(ContentBlock::Text { text: t.to_owned() }),
            None => None,
        },
        Some(BlockKind::ToolUse) => match (v.str_member("id"), v.str_member("name")) {
            (Some(id), Some(name)) => Some(
                ContentBlock::ToolUse {
                    id: id.to_owned(),
                    name: name.to_owned(),
                    input: read_defaulted_value(v, "input"),
                },
            ),
            _ => None,
        },
        Some(BlockKind::ToolResult) => match v.str_member("tool_use_id") {
            Some(id) => Some(
                ContentBlock::ToolResult {
                    tool_use_id: id.to_owned(),
                    content: read_defaulted_value(v, "content"),
                },
            ),
            None => None,
        },
        Some(BlockKind::Thinking) => match read_defaulted_text(v, "thinking") {
            Some(thinking) => Some(ContentBlock::Thinking { thinking }),
            None => None,
        },
        Some(BlockKind::Unknown) => Some(ContentBlock::Unknown),
        None => None,
    }
}

proof fn lemma_blocks_in_fails(items: Seq<JsonView>, k: int)
    requires
        0 <= k <= items.len(),
        blocks_in(items.take(k)) is None,
    ensures
        blocks_in(items) is None,
    decreases items.len(),
{
    if k == items.len() {
        assert(items.take(k) =~= items);
    } else {
        assert(items.drop_last().take(k) =~= items.take(k));
        lemma_blocks_in_fails(items.drop_last(), k);
    }
}

fn read_blocks(items: &Vec<Json>) -> (r: Option<Vec<ContentBlock>>)
    ensures
        match r {
            Some(b) => blocks_in(models(items@)) == Some(block_views(b@)),
            None => blocks_in(models(items@)) is None,
        },
{
    let ghost all = models(items@);
    let mut out: Vec<ContentBlock> = Vec::new();
    let mut i: usize = 0;
    proof {
        lemma_models(items@);
        assert(all.take(0) =~= Seq::<JsonView>::empty());
        assert(block_views(out@) =~= Seq::<BlockView>::empty());
    }
    while i < items.len()
        invariant
            i <= items@.len(),
            all == models(items@),
            all.len() == items@.len(),
            forall|k: int| 0 <= k < items@.len() ==> all[k] == (#[trigger] items@[k])@,
            blocks_in(all.take(i as int)) == Some(block_views(out@)),
        decreases items@.len() - i,
    {
        proof {
            assert(all.take(i + 1).drop_last() =~= all.take(i as int));
            assert(all.take(i + 1).last() == items@[i as int]@);
        }
        match read_block(&items[i]) {
            Some(b) => {
                let ghost before = out@;
                out.push(b);
                assert(block_views(out@) =~= block_views(before).push(b@));
            },
            None => {
                proof {
                    lemma_blocks_in_fails(all, i + 1);
                }
                return None;
            },
        }
        i += 1;
    }
    assert(all.take(items@.len() as int) =~= all);
    Some(out)
}

/// The blocks that a content stands for.
pub open spec fn content_blocks(c: MessageContent) -> Seq<BlockView> {
    match c {
        MessageContent::Empty => Seq::empty(),
        MessageContent::Text(s) => seq![BlockView::Text(s@)],
        MessageContent::Blocks(b) => block_views(b@),
    }
}

fn read_content(v: &Json) -> (r: Option<MessageContent>)
    ensures
        match r {
            Some(c) => content_in(member(v@, "content"@)) == Some(content_blocks(c)),
            None => content_in(member(v@, "content"@)) is None,
        },
{
    match v.get("content") {
        None => Some(MessageContent::Empty),
        Some(Json::Null) => Some(MessageContent::Empty),
        Some(Json::Str(t)) => Some(MessageContent::Text(t.clone())),
        Some(Json::Array(items)) => match read_blocks(items) {
            Some(blocks) => Some(MessageContent::Blocks(blocks)),
            None => None,
        },
        Some(_) => None,
    }
}

fn read_message(v: &Json) -> (r: Option<Message>)
    ensures
        match r {
            Some(m) => said_by(v@) == Some((m.role@, content_blocks(m.content))),
            None => said_by(v@) is None,
        },
{
    let is_object = match v {
        Json::Object(_) => true,
        _ => false,
    };
    match (is_object, read_defaulted_text(v, "role"), read_content(v)) {
        (true, Some(role), Some(content)) => Some(Message { role, content }),
        _ => None,
    }
}

/// What a line says.
pub open spec fn said(line: SessionLine) -> (Seq<char>, Seq<BlockView>) {
    (line_role(line), line_blocks(line))
}

/// Reads a line of a transcript from JSON.
pub fn read_session_line(v: &Json) -> (r: Option<SessionLine>)
    ensures
        match r {
            Some(line) => said_in(v@) == Some(said(line)),
            None => said_in(v@) is None,
        },
{
    let is_object = match v {
        Json::Object(_) => true,
        _ => false,
    };
    let message: Option<Option<Message>> = match v.get("message") {
        None => Some(None),
        Some(Json::Null) => Some(None),
        Some(m) => match read_message(m) {
            Some(message) => Some(Some(message)),
            None => None,
        },
    };
    match (
        is_object,
        read_defaulted_text(v, "type"),
        v.optional_str_member("uuid"),
        v.optional_str_member("parentUuid"),
        message,
    ) {
        (true, Some(_), Some(_), Some(_), Some(message)) => Some(SessionLine { message }),
        _ => None,
    }
}

/// What a line of text says; `None` where it is no line of a transcript.
pub open spec fn said_text(text: Seq<char>) -> Option<(Seq<char>, Seq<BlockView>)> {
    match json_parsed(text) {
        Some(v) => said_in(v),
        None => None,
    }
}

/// What the lines say, without those that are no lines of a transcript.
pub open spec fn transcript_in(lines: Seq<(nat, Seq<char>)>) -> Seq<(Seq<char>, Seq<BlockView>)>
    decreases lines.len(),
{
    if lines.len() == 0 {
        Seq::empty()
    } else {
        let front = transcript_in(lines.drop_last());
        match said_text(lines.last().1) {
            Some(s) => front.push(s),
            None => front,
        }
    }
}

/// The numbers of the lines that are no lines of a transcript.
pub open spec fn skipped_in(lines: Seq<(nat, Seq<char>)>) -> Seq<nat>
    decreases lines.len(),
{
    if lines.len() == 0 {
        Seq::empty()
    } else {
        let front = skipped_in(lines.drop_last());
        match said_text(lines.last().1) {
            Some(_) => front,
            None => front.push(lines.last().0),
        }
    }
}

pub open spec fn all_said(lines: Seq<SessionLine>) -> Seq<(Seq<char>, Seq<BlockView>)> {
    Seq::new(lines.len(), |i: int| said(lines[i]))
}

pub open spec fn numbers(v: Seq<usize>) -> Seq<nat> {
    Seq::new(v.len(), |i: int| v[i] as nat)
}

/// A transcript that was read.
#[derive(Debug)]
pub struct Transcript {
    pub lines: Vec<SessionLine>,
    /// The numbers of the lines that were passed over, from 1.
    pub skipped: Vec<usize>,
}

/// Reads a transcript. Blank lines are left out; what is no line of a transcript is
/// passed over, and its number noted.
pub fn read_transcript(input: &str) -> (r: Transcript)
    ensures
        all_said(r.lines@) == transcript_in(counted_lines(lines_of(input@))),
        numbers(r.skipped@) == skipped_in(counted_lines(lines_of(input@))),
{
    let all = session_lines(input);
    let ghost counted = numbered_views(all@);
    let mut lines: Vec<SessionLine> = Vec::new();
    let mut skipped: Vec<usize> = Vec::new();
    let mut i: usize = 0;
    assert(counted.take(0) =~= Seq::<(nat, Seq<char>)>::empty());
    while i < all.len()
        invariant
            i <= all@.len(),
            counted == numbered_views(all@),
            all_said(lines@) =~= transcript_in(counted.take(i as int)),
            numbers(skipped@) =~= skipped_in(counted.take(i as int)),
        decreases all@.len() - i,
    {
        proof {
            assert(counted.take(i + 1).drop_last() =~= counted.take(i as int));
            assert(counted.take(i + 1).last() == (
                all@[i as int].number as nat,
                all@[i as int].text@,
            ));
        }
        let line = match parse_json(all[i].text.as_str()) {
            Some(v) => read_session_line(&v),
            None => None,
        };
        match line {
            Some(l) => {
                let ghost before = lines@;
                lines.push(l);
                assert(all_said(lines@) =~= all_said(before).push(said(l)));
            },
            None => {
                let ghost before = skipped@;
                skipped.push(all[i].number);
                assert(numbers(skipped@) =~= numbers(before).push(all@[i as int].number as nat));
            },
        }
        i += 1;
    }
    assert(counted.take(all@.len() as int) =~= counted);
    Transcript { lines, skipped }
}

/// The graph of what was said.
pub open spec fn said_applied(
    g: GraphView,
    transcript: Seq<(Seq<char>, Seq<BlockView>)>,
) -> GraphView
    decreases transcript.len(),
{
    if transcript.len() == 0 {
        g
    } else {
        let last = transcript.last();
        blocks_applied(said_applied(g, transcript.drop_last()), last.0, last.1)
    }
}

/// How many blocks were said.
pub open spec fn said_count(transcript: Seq<(Seq<char>, Seq<BlockView>)>) -> nat
    decreases transcript.len(),
{
    if transcript.len() == 0 {
        0
    } else {
        said_count(transcript.drop_last()) + transcript.last().1.len()
    }
}

/// Whether every block of what was said has a title and an id.
pub open spec fn said_fits(transcript: Seq<(Seq<char>, Seq<BlockView>)>) -> bool {
    &&& forall|i: int, j: int|
        0 <= i < transcript.len() && 0 <= j < transcript[i].1.len() ==> block_fits(
            transcript[i].0,
            #[trigger] transcript[i].1[j],
        )
    &&& said_count(transcript) <= usize::MAX
}

/// The lines stand for what they say.
proof fn lemma_all_said(g: GraphView, lines: Seq<SessionLine>)
    ensures
        said_applied(g, all_said(lines)) == lines_applied(g, lines),
        said_count(all_said(lines)) == block_count(lines),
    decreases lines.len(),
{
    if lines.len() > 0 {
        lemma_all_said(g, lines.drop_last());
        assert(all_said(lines).drop_last() =~= all_said(lines.drop_last()));
    }
}

proof fn lemma_said_fits(lines: Seq<SessionLine>)
    ensures
        said_fits(all_said(lines)) == transcript_fits(lines),
{
    lemma_all_said(empty_graph(), lines);
    let t = all_said(lines);
    if said_fits(t) {
        assert forall|i: int| 0 <= i < lines.len() implies line_fits(#[trigger] lines[i]) by {
            assert forall|j: int| 0 <= j < line_blocks(lines[i]).len() implies block_fits(
                line_role(lines[i]),
                #[trigger] line_blocks(lines[i])[j],
            ) by {
                assert(block_fits(t[i].0, t[i].1[j]));
            }
        }
    }
    if transcript_fits(lines) {
        assert forall|i: int, j: int| 0 <= i < t.len() && 0 <= j < t[i].1.len() implies block_fits(
            t[i].0,
            #[trigger] t[i].1[j],
        ) by {
            assert(line_fits(lines[i]));
            assert(block_fits(line_role(lines[i]), line_blocks(lines[i])[j]));
        }
    }
}

/// A graph, with the numbers of the lines that were passed over.
#[derive(Debug)]
pub struct Conversion {
    pub graph: ArchGraph,
    pub skipped: Vec<usize>,
}

/// What the text of a transcript says.
pub open spec fn transcript_of(input: Seq<char>) -> Seq<(Seq<char>, Seq<BlockView>)> {
    transcript_in(counted_lines(lines_of(input)))
}

/// Whether the conversion is that of the text.
pub open spec fn converts(input: Seq<char>, c: Conversion) -> bool {
    let g = said_applied(empty_graph(), transcript_of(input));
    &&& component_views(c.graph.components@) == g.components
    &&& link_views(c.graph.links@) == g.links
    &&& numbers(c.skipped@) == skipped_in(counted_lines(lines_of(input)))
}

/// The graph of a transcript.
pub fn convert(input: &str) -> (r: Conversion)
    requires
        said_fits(transcript_of(input@)),
    ensures
        converts(input@, r),
{
    let t = read_transcript(input);
    proof {
        lemma_said_fits(t.lines@);
        lemma_all_said(empty_graph(), t.lines@);
    }
    Conversion { graph: convert_lines(&t.lines), skipped: t.skipped }
}

/// The graph of a transcript; `None` where some block has no title, because the place
/// at which its text would be cut lies inside a character.
pub fn try_convert(input: &str) -> (r: Option<Conversion>)
    ensures
        match r {
            Some(c) => said_fits(transcript_of(input@)) && converts(input@, c),
            None => !said_fits(transcript_of(input@)),
        },
{
    let t = read_transcript(input);
    proof {
        lemma_said_fits(t.lines@);
    }
    if can_convert_lines(&t.lines) {
        Some(convert(input))
    } else {
        None
    }
}

// ─── Laws ───────────────────────────────────────────────────────────────────

/// Whether some component has the id.
pub open spec fn has_id(g: GraphView, id: Seq<char>) -> bool {
    exists|i: int| 0 <= i < g.components.len() && (#[trigger] g.components[i]).id == id
}

/// Whether the id was made of the number.
pub open spec fn id_has_number(id: Seq<char>, n: nat) -> bool {
    ||| id == numbered("msg"@, n)
    ||| id == numbered("tool"@, n)
    ||| id == numbered("tool"@, n) + "r"@
}

/// Whether the graph hangs together: the components are numbered one by one, and
/// whatever refers to a component refers to one that is there.
pub open spec fn consistent(g: GraphView) -> bool {
    &&& g.components.len() == g.counter
    &&& forall|i: int|
        0 <= i < g.components.len() ==> id_has_number(
            (#[trigger] g.components[i]).id,
            (i + 1) as nat,
        )
    &&& forall|i: int|
        0 <= i < g.links.len() ==> has_id(g, (#[trigger] g.links[i]).from) && has_id(
            g,
            g.links[i].to,
        )
    &&& forall|k: Seq<char>| #[trigger]
        g.tool_use_ids.contains_key(k) ==> has_id(g, g.tool_use_ids[k])
    &&& g.last_assistant_id matches Some(id) ==> has_id(g, id)
    &&& g.last_user_id matches Some(id) ==> has_id(g, id)
}

proof fn lemma_block_keeps_consistent(g: GraphView, role: Seq<char>, block: BlockView)
    requires
        consistent(g),
    ensures
        consistent(block_applied(g, role, block)),
{
    let h = block_applied(g, role, block);
    if h.components.len() > g.components.len() {
        let id = h.components.last().id;
        assert(h.components[g.components.len() as int].id == id);
        assert(has_id(h, id));
        assert forall|x: Seq<char>| has_id(g, x) implies #[trigger] has_id(h, x) by {
            let i = choose|i: int|
                0 <= i < g.components.len() && (#[trigger] g.components[i]).id == x;
            assert(h.components[i].id == x);
        }
        assert forall|i: int| 0 <= i < h.components.len() implies id_has_number(
            (#[trigger] h.components[i]).id,
            (i + 1) as nat,
        ) by {
            if i < g.components.len() {
                assert(h.components[i] == g.components[i]);
            }
        }
        assert forall|i: int| 0 <= i < h.links.len() implies has_id(h, (#[trigger] h.links[i]).from)
            && has_id(h, h.links[i].to) by {
            if i < g.links.len() {
                assert(h.links[i] == g.links[i]);
                assert(has_id(g, g.links[i].from) && has_id(g, g.links[i].to));
            }
        }
        assert forall|k: Seq<char>| #[trigger] h.tool_use_ids.contains_key(k) implies has_id(
            h,
            h.tool_use_ids[k],
        ) by {
            if g.tool_use_ids.contains_key(k) {
                assert(has_id(g, g.tool_use_ids[k]));
            }
        }
    } else {
        assert(h == g);
    }
}

proof fn lemma_blocks_keep_consistent(g: GraphView, role: Seq<char>, blocks: Seq<BlockView>)
    requires
        consistent(g),
    ensures
        consistent(blocks_applied(g, role, blocks)),
    decreases blocks.len(),
{
    if blocks.len() > 0 {
        lemma_blocks_keep_consistent(g, role, blocks.drop_last());
        lemma_block_keeps_consistent(
            blocks_applied(g, role, blocks.drop_last()),
            role,
            blocks.last(),
        );
    }
}

/// The graph of every transcript hangs together: each link joins two of its
/// components.
pub proof fn law_graph_consistent(lines: Seq<SessionLine>)
    ensures
        consistent(lines_applied(empty_graph(), lines)),
    decreases lines.len(),
{
    if lines.len() > 0 {
        law_graph_consistent(lines.drop_last());
        lemma_blocks_keep_consistent(
            lines_applied(empty_graph(), lines.drop_last()),
            line_role(lines.last()),
            line_blocks(lines.last()),
        );
    }
}

proof fn lemma_numbered_differs(n: nat, m: nat, id: Seq<char>)
    requires
        id_has_number(id, n),
        id_has_number(id, m),
    ensures
        n == m,
{
    reveal_strlit("msg");
    reveal_strlit("tool");
    reveal_strlit("_");
    reveal_strlit("r");
    lemma_padded_value(n, 3);
    lemma_padded_value(m, 3);
    let pn = padded(n, 3);
    let pm = padded(m, 3);
    if id == numbered("msg"@, n) {
        assert(id[0] == 'm');
        assert(id == numbered("msg"@, m)) by {
            assert(numbered("tool"@, m)[0] == 't');
            assert((numbered("tool"@, m) + "r"@)[0] == 't');
        }
        assert(pn =~= id.skip(4));
        assert(pm =~= id.skip(4));
    } else {
        assert(id[0] == 't') by {
            assert(numbered("tool"@, n)[0] == 't');
            assert((numbered("tool"@, n) + "r"@)[0] == 't');
        }
        assert(numbered("msg"@, m)[0] == 'm');
        assert(numbered("tool"@, n).last() == pn.last());
        assert(numbered("tool"@, m).last() == pm.last());
        assert(is_digit(pn[pn.len() - 1]));
        assert(is_digit(pm[pm.len() - 1]));
        assert((numbered("tool"@, n) + "r"@).last() == 'r');
        assert((numbered("tool"@, m) + "r"@).last() == 'r');
        if id == numbered("tool"@, n) {
            assert(id == numbered("tool"@, m));
            assert(pn =~= id.skip(5));
            assert(pm =~= id.skip(5));
        } else {
            assert(id == numbered("tool"@, m) + "r"@);
            assert(pn =~= id.drop_last().skip(5));
            assert(pm =~= id.drop_last().skip(5));
        }
    }
}

/// No two components of a graph have the same id.
pub proof fn law_ids_unique(lines: Seq<SessionLine>, i: int, j: int)
    requires
        0 <= i < j < lines_applied(empty_graph(), lines).components.len(),
    ensures
        lines_applied(empty_graph(), lines).components[i].id != lines_applied(
            empty_graph(),
            lines,
        ).components[j].id,
{
    law_graph_consistent(lines);
    let g = lines_applied(empty_graph(), lines);
    assert(id_has_number(g.components[i].id, (i + 1) as nat));
    assert(id_has_number(g.components[j].id, (j + 1) as nat));
    if g.components[i].id == g.components[j].id {
        lemma_numbered_differs((i + 1) as nat, (j + 1) as nat, g.components[i].id);
    }
}

/// Whether `h` begins with the components and the links of `g`.
pub open spec fn extends(g: GraphView, h: GraphView) -> bool {
    g.components.is_prefix_of(h.components) && g.links.is_prefix_of(h.links)
}

proof fn lemma_extends_trans(g: GraphView, h: GraphView, k: GraphView)
    requires
        extends(g, h),
        extends(h, k),
    ensures
        extends(g, k),
{
    assert(g.components =~= k.components.subrange(0, g.components.len() as int)) by {
        assert forall|i: int| 0 <= i < g.components.len() implies g.components[i]
            == k.components[i] by {
            assert(h.components.subrange(0, g.components.len() as int)[i] == h.components[i]);
            assert(k.components.subrange(0, h.components.len() as int)[i] == k.components[i]);
        }
    }
    assert(g.links =~= k.links.subrange(0, g.links.len() as int)) by {
        assert forall|i: int| 0 <= i < g.links.len() implies g.links[i] == k.links[i] by {
            assert(h.links.subrange(0, g.links.len() as int)[i] == h.links[i]);
            assert(k.links.subrange(0, h.links.len() as int)[i] == k.links[i]);
        }
    }
}

/// A message only adds to the graph: the components and the links that were there stay,
/// in their order, and the new ones follow them.
pub proof fn law_message_only_appends(g: GraphView, role: Seq<char>, blocks: Seq<BlockView>)
    ensures
        extends(g, blocks_applied(g, role, blocks)),
    decreases blocks.len(),
{
    if blocks.len() == 0 {
        assert(g.components =~= g.components.subrange(0, g.components.len() as int));
        assert(g.links =~= g.links.subrange(0, g.links.len() as int));
    } else {
        let h = blocks_applied(g, role, blocks.drop_last());
        let k = block_applied(h, role, blocks.last());
        law_message_only_appends(g, role, blocks.drop_last());
        assert(h.components =~= k.components.subrange(0, h.components.len() as int));
        assert(h.links =~= k.links.subrange(0, h.links.len() as int));
        lemma_extends_trans(g, h, k);
    }
}

/// So does a transcript: the graph of a transcript begins with that of what came before.
pub proof fn law_transcript_only_appends(g: GraphView, lines: Seq<SessionLine>)
    ensures
        extends(g, lines_applied(g, lines)),
    decreases lines.len(),
{
    if lines.len() == 0 {
        law_message_only_appends(g, Seq::empty(), Seq::empty());
    } else {
        let h = lines_applied(g, lines.drop_last());
        law_transcript_only_appends(g, lines.drop_last());
        law_message_only_appends(h, line_role(lines.last()), line_blocks(lines.last()));
        lemma_extends_trans(g, h, lines_applied(g, lines));
    }
}

/// Whether the link leads from a component to a later one.
pub open spec fn leads_forward(g: GraphView, link: LinkView) -> bool {
    exists|i: int, j: int|
        0 <= i < j < g.components.len() && (#[trigger] g.components[i]).id == link.from && (
        #[trigger] g.components[j]).id == link.to
}

pub open spec fn all_forward(g: GraphView) -> bool {
    forall|n: int| 0 <= n < g.links.len() ==> leads_forward(g, #[trigger] g.links[n])
}

proof fn lemma_block_keeps_forward(g: GraphView, role: Seq<char>, block: BlockView)
    requires
        consistent(g),
        all_forward(g),
    ensures
        all_forward(block_applied(g, role, block)),
{
    let h = block_applied(g, role, block);
    let last = g.components.len() as int;
    assert forall|n: int| 0 <= n < h.links.len() implies leads_forward(
        h,
        #[trigger] h.links[n],
    ) by {
        if n < g.links.len() {
            assert(leads_forward(g, g.links[n]));
            let (i, j) = choose|i: int, j: int|
                0 <= i < j < g.components.len() && (#[trigger] g.components[i]).id
                    == g.links[n].from && (#[trigger] g.components[j]).id == g.links[n].to;
            assert(h.components[i].id == h.links[n].from && h.components[j].id == h.links[n].to);
        } else {
            assert(has_id(g, h.links[n].from));
            let i = choose|i: int|
                0 <= i < g.components.len() && (#[trigger] g.components[i]).id == h.links[n].from;
            assert(h.components[i].id == h.links[n].from);
            assert(h.components[last].id == h.links[n].to);
        }
    }
}

proof fn lemma_blocks_keep_forward(g: GraphView, role: Seq<char>, blocks: Seq<BlockView>)
    requires
        consistent(g),
        all_forward(g),
    ensures
        all_forward(blocks_applied(g, role, blocks)),
    decreases blocks.len(),
{
    if blocks.len() > 0 {
        lemma_blocks_keep_consistent(g, role, blocks.drop_last());
        lemma_blocks_keep_forward(g, role, blocks.drop_last());
        lemma_block_keeps_forward(
            blocks_applied(g, role, blocks.drop_last()),
            role,
            blocks.last(),
        );
    }
}

/// The graph follows the transcript: each link leads from a component to a later one, so
/// that no way along the links comes back to where it began.
pub proof fn law_links_lead_forward(lines: Seq<SessionLine>)
    ensures
        all_forward(lines_applied(empty_graph(), lines)),
    decreases lines.len(),
{
    if lines.len() > 0 {
        law_graph_consistent(lines.drop_last());
        law_links_lead_forward(lines.drop_last());
        lemma_blocks_keep_forward(
            lines_applied(empty_graph(), lines.drop_last()),
            line_role(lines.last()),
            line_blocks(lines.last()),
        );
    }
}

/// What a line of the file says; `None` where it is blank or no line of a transcript.
pub open spec fn line_said(line: Seq<char>) -> Option<(Seq<char>, Seq<BlockView>)> {
    let text = trimmed(line, CharClass::White);
    if text.len() == 0 {
        None
    } else {
        said_text(text)
    }
}

/// What the lines of the file say, one after the other.
pub open spec fn lines_said(lines: Seq<Seq<char>>) -> Seq<(Seq<char>, Seq<BlockView>)>
    decreases lines.len(),
{
    if lines.len() == 0 {
        Seq::empty()
    } else {
        let front = lines_said(lines.drop_last());
        match line_said(lines.last()) {
            Some(s) => front.push(s),
            None => front,
        }
    }
}

proof fn lemma_lines_said(lines: Seq<Seq<char>>)
    ensures
        transcript_in(counted_lines(lines)) == lines_said(lines),
    decreases lines.len(),
{
    if lines.len() > 0 {
        let front = counted_lines(lines.drop_last());
        lemma_lines_said(lines.drop_last());
        let text = trimmed(lines.last(), CharClass::White);
        if text.len() > 0 {
            assert(front.push((lines.len(), text)).drop_last() =~= front);
        }
    }
}

proof fn lemma_lines_said_concat(a: Seq<Seq<char>>, b: Seq<Seq<char>>)
    ensures
        lines_said(a + b) == lines_said(a) + lines_said(b),
    decreases b.len(),
{
    if b.len() == 0 {
        assert(a + b =~= a);
        assert(lines_said(a) + lines_said(b) =~= lines_said(a));
    } else {
        lemma_lines_said_concat(a, b.drop_last());
        assert((a + b).drop_last() =~= a + b.drop_last());
        assert((a + b).last() == b.last());
        assert(lines_said(a + b) =~= lines_said(a) + lines_said(b));
    }
}

proof fn lemma_skipped_line_is_noted(lines: Seq<Seq<char>>, k: int)
    requires
        0 <= k < lines.len(),
        trimmed(lines[k], CharClass::White).len() > 0,
        line_said(lines[k]) is None,
    ensures
        skipped_in(counted_lines(lines)).contains((k + 1) as nat),
    decreases lines.len(),
{
    let front = counted_lines(lines.drop_last());
    let text = trimmed(lines.last(), CharClass::White);
    let earlier = skipped_in(front);
    let all = skipped_in(counted_lines(lines));
    if text.len() > 0 {
        assert(front.push((lines.len(), text)).drop_last() =~= front);
    }
    if k == lines.len() - 1 {
        assert(all[earlier.len() as int] == k + 1);
    } else {
        lemma_skipped_line_is_noted(lines.drop_last(), k);
        let i = choose|i: int| 0 <= i < earlier.len() && earlier[i] == (k + 1) as nat;
        assert(all[i] == (k + 1) as nat);
    }
}

/// A line that is blank or no line of a transcript disturbs nothing else: the graph of the
/// text is that of the text without the line. A line that is not blank is noted.
pub proof fn law_malformed_line_disturbs_nothing(
    input: Seq<char>,
    without: Seq<char>,
    k: int,
    c: Conversion,
    d: Conversion,
)
    requires
        0 <= k < lines_of(input).len(),
        line_said(lines_of(input)[k]) is None,
        lines_of(without) == lines_of(input).remove(k),
        converts(input, c),
        converts(without, d),
    ensures
        transcript_of(input) == transcript_of(without),
        component_views(c.graph.components@) == component_views(d.graph.components@),
        link_views(c.graph.links@) == link_views(d.graph.links@),
        trimmed(lines_of(input)[k], CharClass::White).len() > 0 ==> numbers(c.skipped@).contains(
            (k + 1) as nat,
        ),
{
    let lines = lines_of(input);
    let front = lines.take(k);
    let back = lines.skip(k + 1);
    let line = seq![lines[k]];
    lemma_lines_said(lines);
    lemma_lines_said(lines_of(without));
    assert(lines =~= front + line + back);
    assert(lines.remove(k) =~= front + back);
    lemma_lines_said_concat(front + line, back);
    lemma_lines_said_concat(front, line);
    lemma_lines_said_concat(front, back);
    reveal_with_fuel(lines_said, 2);
    assert(lines_said(line) =~= Seq::<(Seq<char>, Seq<BlockView>)>::empty());
    assert(lines_said(front) + lines_said(line) =~= lines_said(front));
    if trimmed(lines[k], CharClass::White).len() > 0 {
        lemma_skipped_line_is_noted(lines, k);
    }
}

/// A title never holds a line break of the text that it shows.
pub proof fn law_truncated_is_one_line(s: Seq<char>, max: nat, i: int)
    requires
        0 <= i < truncated(s, max).len(),
    ensures
        truncated(s, max)[i] != '\n',
{
    reveal_strlit("...");
    lemma_fitting(replaced(s, '\n', ' '), max);
}

/// A cut text takes at most the bytes asked for, and those of the ellipsis.
pub proof fn law_truncated_length(s: Seq<char>, max: nat)
    ensures
        byte_len(truncated(s, max)) <= max + 3,
{
    reveal_strlit("...");
    let line = replaced(s, '\n', ' ');
    lemma_fitting(line, max);
    lemma_byte_len_concat(prefix_within(line, max), "..."@);
    reveal_with_fuel(byte_len, 4);
    assert("..."@.drop_last().drop_last().drop_last().len() == 0);
}

// ─── Laws on what is linked to what ─────────────────────────────────────────

/// Whether an assistant answers such a component: a message of the user, or a tool result.
pub open spec fn is_prompt(c: ComponentView) -> bool {
    c.entity == "user_message"@ || c.entity == "tool_result"@
}

/// Whether an assistant produced such a component: a message, or thinking.
pub open spec fn is_speech(c: ComponentView) -> bool {
    c.entity == "assistant_message"@ || c.entity == "thinking"@
}

/// Whether `i` is the latest prompt before `j`.
pub open spec fn latest_prompt(components: Seq<ComponentView>, i: int, j: int) -> bool {
    &&& 0 <= i < j
    &&& is_prompt(components[i])
    &&& forall|k: int| i < k < j ==> !is_prompt(#[trigger] components[k])
}

/// Whether `i` is the latest speech before `j`.
pub open spec fn latest_speech(components: Seq<ComponentView>, i: int, j: int) -> bool {
    &&& 0 <= i < j
    &&& is_speech(components[i])
    &&& forall|k: int| i < k < j ==> !is_speech(#[trigger] components[k])
}

/// Whether a link of the kind leads from `i` to `j` by what the two are: speech answers the
/// latest prompt, a message of the user the latest speech; a tool is called by the latest
/// speech, and a tool result belongs to a tool call before it.
pub open spec fn joins(components: Seq<ComponentView>, i: int, j: int, kind: Seq<char>) -> bool {
    &&& 0 <= i < j < components.len()
    &&& {
        ||| is_speech(components[j]) && latest_prompt(components, i, j) && kind == "response"@
        ||| components[j].entity == "user_message"@ && latest_speech(components, i, j) && kind
            == "response"@
        ||| components[j].entity == "tool_use"@ && latest_speech(components, i, j) && kind
            == "invocation"@
        ||| components[j].entity == "tool_result"@ && components[i].entity == "tool_use"@ && kind
            == "result"@
    }
}

/// Whether the graph remembers what it links from next.
spec fn remembers(g: GraphView) -> bool {
    &&& (g.last_user_id matches Some(id) ==> exists|i: int|
        latest_prompt(g.components, i, g.components.len() as int) && (
        #[trigger] g.components[i]).id == id)
    &&& (g.last_user_id is None ==> forall|k: int|
        0 <= k < g.components.len() ==> !is_prompt(#[trigger] g.components[k]))
    &&& (g.last_assistant_id matches Some(id) ==> exists|i: int|
        latest_speech(g.components, i, g.components.len() as int) && (
        #[trigger] g.components[i]).id == id)
    &&& (g.last_assistant_id is None ==> forall|k: int|
        0 <= k < g.components.len() ==> !is_speech(#[trigger] g.components[k]))
    &&& forall|c: Seq<char>| #[trigger]
        g.tool_use_ids.contains_key(c) ==> exists|i: int|
            0 <= i < g.components.len() && (#[trigger] g.components[i]).id == g.tool_use_ids[c]
                && g.components[i].entity == "tool_use"@
}

/// Whether every link joins two components as it should.
pub open spec fn links_join(g: GraphView) -> bool {
    forall|n: int|
        0 <= n < g.links.len() ==> exists|i: int, j: int|
            joins(g.components, i, j, g.links[n].kind) && (#[trigger] g.components[i]).id
                == (#[trigger] g.links[n]).from && (#[trigger] g.components[j]).id == g.links[n].to
}

/// Whether every two components that should be joined are, but for tool results.
pub open spec fn joins_linked(g: GraphView) -> bool {
    forall|i: int, j: int, kind: Seq<char>| #[trigger]
        joins(g.components, i, j, kind) && g.components[j].entity != "tool_result"@
            ==> g.links.contains(
            LinkView { from: g.components[i].id, to: g.components[j].id, kind },
        )
}

/// Whether no component has two links to it.
pub open spec fn one_link_each(g: GraphView) -> bool {
    forall|m: int, n: int|
        0 <= m < n < g.links.len() ==> (#[trigger] g.links[m]).to != (#[trigger] g.links[n]).to
}

spec fn well_linked(g: GraphView) -> bool {
    consistent(g) && remembers(g) && links_join(g) && joins_linked(g) && one_link_each(g)
}

proof fn lemma_entities()
    ensures
        "user_message"@ != "tool_result"@,
        "user_message"@ != "assistant_message"@,
        "user_message"@ != "thinking"@,
        "user_message"@ != "tool_use"@,
        "tool_result"@ != "assistant_message"@,
        "tool_result"@ != "thinking"@,
        "tool_result"@ != "tool_use"@,
        "assistant_message"@ != "thinking"@,
        "assistant_message"@ != "tool_use"@,
        "thinking"@ != "tool_use"@,
        "user"@ != "assistant"@,
{
    reveal_strlit("user_message");
    reveal_strlit("tool_result");
    reveal_strlit("assistant_message");
    reveal_strlit("thinking");
    reveal_strlit("tool_use");
    reveal_strlit("user");
    reveal_strlit("assistant");
    assert("user_message"@.len() == 12 && "tool_result"@.len() == 11 && "assistant_message"@.len()
        == 17 && "thinking"@.len() == 8 && "tool_use"@.len() == 8);
    assert("thinking"@[1] == 'h' && "tool_use"@[1] == 'o');
    assert("user"@.len() == 4 && "assistant"@.len() == 9);
}

/// What is joined in a graph stays so when it grows, and nothing else of it is.
proof fn lemma_joins_grow(a: Seq<ComponentView>, c: ComponentView)
    ensures
        forall|i: int, j: int, kind: Seq<char>|
            #![trigger joins(a, i, j, kind)]
            #![trigger joins(a.push(c), i, j, kind)]
            j < a.len() ==> (joins(a, i, j, kind) <==> joins(a.push(c), i, j, kind)),
{
    let b = a.push(c);
    assert forall|i: int, j: int, kind: Seq<char>|
        #![trigger joins(a, i, j, kind)]
        #![trigger joins(b, i, j, kind)]
        j < a.len() implies (joins(a, i, j, kind) <==> joins(b, i, j, kind)) by {
        if 0 <= i < j < a.len() {
            assert(a[i] == b[i] && a[j] == b[j]);
            assert(latest_prompt(a, i, j) <==> latest_prompt(b, i, j)) by {
                assert forall|k: int| i < k < j implies a[k] == b[k] by {}
                if latest_prompt(a, i, j) {
                    assert forall|k: int| i < k < j implies !is_prompt(#[trigger] b[k]) by {
                        assert(!is_prompt(a[k]));
                    }
                }
                if latest_prompt(b, i, j) {
                    assert forall|k: int| i < k < j implies !is_prompt(#[trigger] a[k]) by {
                        assert(!is_prompt(b[k]));
                    }
                }
            }
            assert(latest_speech(a, i, j) <==> latest_speech(b, i, j)) by {
                if latest_speech(a, i, j) {
                    assert forall|k: int| i < k < j implies !is_speech(#[trigger] b[k]) by {
                        assert(!is_speech(a[k]));
                    }
                }
                if latest_speech(b, i, j) {
                    assert forall|k: int| i < k < j implies !is_speech(#[trigger] a[k]) by {
                        assert(!is_speech(b[k]));
                    }
                }
            }
        }
    }
}

proof fn lemma_new_id_is_new(g: GraphView, id: Seq<char>)
    requires
        consistent(g),
        id_has_number(id, g.components.len() + 1),
    ensures
        !has_id(g, id),
{
    if has_id(g, id) {
        let i = choose|i: int| 0 <= i < g.components.len() && (#[trigger] g.components[i]).id == id;
        assert(id_has_number(g.components[i].id, (i + 1) as nat));
        lemma_numbered_differs((i + 1) as nat, g.components.len() + 1, id);
    }
}

/// The graph with one more component, linked from the one that it belongs to.
proof fn lemma_grown_is_well_linked(
    g: GraphView,
    h: GraphView,
    c: ComponentView,
    from: Option<Seq<char>>,
    kind: Seq<char>,
)
    requires
        well_linked(g),
        consistent(h),
        h.components == g.components.push(c),
        h.links == linked(g.links, from, c.id, kind),
        id_has_number(c.id, g.components.len() + 1),
        from matches Some(f) ==> exists|i: int|
            joins(h.components, i, g.components.len() as int, kind) && (
            #[trigger] h.components[i]).id == f,
        forall|i: int, k: Seq<char>| #[trigger]
            joins(h.components, i, g.components.len() as int, k) && c.entity != "tool_result"@
                ==> k == kind && from == Some(h.components[i].id),
    ensures
        links_join(h),
        joins_linked(h),
        one_link_each(h),
{
    let last = g.components.len() as int;
    lemma_joins_grow(g.components, c);
    lemma_new_id_is_new(g, c.id);
    assert(h.components[last] == c);
    assert forall|n: int| 0 <= n < h.links.len() implies exists|i: int, j: int|
        joins(h.components, i, j, h.links[n].kind) && (#[trigger] h.components[i]).id
            == (#[trigger] h.links[n]).from && (#[trigger] h.components[j]).id == h.links[n].to by {
        if n < g.links.len() {
            assert(h.links[n] == g.links[n]);
            let (i, j) = choose|i: int, j: int|
                joins(g.components, i, j, g.links[n].kind) && (#[trigger] g.components[i]).id
                    == g.links[n].from && (#[trigger] g.components[j]).id == g.links[n].to;
            assert(joins(h.components, i, j, h.links[n].kind));
            assert(h.components[i] == g.components[i] && h.components[j] == g.components[j]);
        } else {
            let i = choose|i: int|
                joins(h.components, i, last, kind) && (#[trigger] h.components[i]).id == from->0;
            assert(h.components[i].id == h.links[n].from && h.components[last].id
                == h.links[n].to);
        }
    }
    assert forall|i: int, j: int, k: Seq<char>| #[trigger]
        joins(h.components, i, j, k) && h.components[j].entity
            != "tool_result"@ implies h.links.contains(
        LinkView { from: h.components[i].id, to: h.components[j].id, kind: k },
    ) by {
        let link = LinkView { from: h.components[i].id, to: h.components[j].id, kind: k };
        if j < last {
            assert(joins(g.components, i, j, k));
            assert(h.components[i] == g.components[i] && h.components[j] == g.components[j]);
            assert(g.links.contains(link));
            let n = choose|n: int| 0 <= n < g.links.len() && g.links[n] == link;
            assert(h.links[n] == link);
        } else {
            assert(h.links[g.links.len() as int] == link);
        }
    }
    assert forall|m: int, n: int| 0 <= m < n < h.links.len() implies (#[trigger] h.links[m]).to
        != (#[trigger] h.links[n]).to by {
        assert(h.links[m] == g.links[m]);
        if n < g.links.len() {
            assert(h.links[n] == g.links[n]);
        } else {
            assert(has_id(g, g.links[m].to));
        }
    }
}

proof fn lemma_latest_grow(a: Seq<ComponentView>, c: ComponentView)
    ensures
        is_prompt(c) ==> latest_prompt(a.push(c), a.len() as int, (a.len() + 1) as int),
        is_speech(c) ==> latest_speech(a.push(c), a.len() as int, (a.len() + 1) as int),
        forall|i: int|
            !is_prompt(c) && #[trigger] latest_prompt(a, i, a.len() as int) ==> latest_prompt(
                a.push(c),
                i,
                (a.len() + 1) as int,
            ),
        forall|i: int|
            !is_speech(c) && #[trigger] latest_speech(a, i, a.len() as int) ==> latest_speech(
                a.push(c),
                i,
                (a.len() + 1) as int,
            ),
        forall|i: int|
            #![trigger latest_prompt(a, i, a.len() as int)]
            #![trigger latest_prompt(a.push(c), i, a.len() as int)]
            latest_prompt(a, i, a.len() as int) <==> latest_prompt(a.push(c), i, a.len() as int),
        forall|i: int|
            #![trigger latest_speech(a, i, a.len() as int)]
            #![trigger latest_speech(a.push(c), i, a.len() as int)]
            latest_speech(a, i, a.len() as int) <==> latest_speech(a.push(c), i, a.len() as int),
{
    let b = a.push(c);
    let n = a.len() as int;
    assert forall|k: int| 0 <= k < n implies a[k] == b[k] by {}
    assert(b[n] == c);
    assert forall|i: int|
        #![trigger latest_prompt(a, i, n)]
        #![trigger latest_prompt(b, i, n)]
        latest_prompt(a, i, n) <==> latest_prompt(b, i, n) by {
        if latest_prompt(a, i, n) {
            assert forall|k: int| i < k < n implies !is_prompt(#[trigger] b[k]) by {
                assert(!is_prompt(a[k]));
            }
        }
        if latest_prompt(b, i, n) {
            assert forall|k: int| i < k < n implies !is_prompt(#[trigger] a[k]) by {
                assert(!is_prompt(b[k]));
            }
        }
    }
    assert forall|i: int|
        #![trigger latest_speech(a, i, n)]
        #![trigger latest_speech(b, i, n)]
        latest_speech(a, i, n) <==> latest_speech(b, i, n) by {
        if latest_speech(a, i, n) {
            assert forall|k: int| i < k < n implies !is_speech(#[trigger] b[k]) by {
                assert(!is_speech(a[k]));
            }
        }
        if latest_speech(b, i, n) {
            assert forall|k: int| i < k < n implies !is_speech(#[trigger] a[k]) by {
                assert(!is_speech(b[k]));
            }
        }
    }
    assert forall|i: int| !is_prompt(c) && #[trigger] latest_prompt(a, i, n) implies latest_prompt(
        b,
        i,
        n + 1,
    ) by {
        assert(latest_prompt(b, i, n));
        assert forall|k: int| i < k < n + 1 implies !is_prompt(#[trigger] b[k]) by {
            if k < n {
                assert(!is_prompt(a[k]));
            }
        }
    }
    assert forall|i: int| !is_speech(c) && #[trigger] latest_speech(a, i, n) implies latest_speech(
        b,
        i,
        n + 1,
    ) by {
        assert(latest_speech(b, i, n));
        assert forall|k: int| i < k < n + 1 implies !is_speech(#[trigger] b[k]) by {
            if k < n {
                assert(!is_speech(a[k]));
            }
        }
    }
}

proof fn lemma_latest_is_one(a: Seq<ComponentView>, i: int, k: int, j: int)
    ensures
        latest_prompt(a, i, j) && latest_prompt(a, k, j) ==> i == k,
        latest_speech(a, i, j) && latest_speech(a, k, j) ==> i == k,
{
    if latest_prompt(a, i, j) && latest_prompt(a, k, j) {
        if i < k {
            assert(!is_prompt(a[k]));
        } else if k < i {
            assert(!is_prompt(a[i]));
        }
    }
    if latest_speech(a, i, j) && latest_speech(a, k, j) {
        if i < k {
            assert(!is_speech(a[k]));
        } else if k < i {
            assert(!is_speech(a[i]));
        }
    }
}

/// What the next component is linked from.
proof fn lemma_remembered(g: GraphView, c: ComponentView)
    requires
        remembers(g),
    ensures
        forall|i: int| #[trigger]
            latest_prompt(g.components.push(c), i, g.components.len() as int)
                ==> g.last_user_id == Some(g.components.push(c)[i].id),
        g.last_user_id is Some ==> exists|i: int|
            latest_prompt(g.components.push(c), i, g.components.len() as int) && (
            #[trigger] g.components.push(c)[i]).id == g.last_user_id->0,
        forall|i: int| #[trigger]
            latest_speech(g.components.push(c), i, g.components.len() as int)
                ==> g.last_assistant_id == Some(g.components.push(c)[i].id),
        g.last_assistant_id is Some ==> exists|i: int|
            latest_speech(g.components.push(c), i, g.components.len() as int) && (
            #[trigger] g.components.push(c)[i]).id == g.last_assistant_id->0,
{
    let a = g.components;
    let b = a.push(c);
    let n = a.len() as int;
    lemma_latest_grow(a, c);
    assert forall|i: int| #[trigger] latest_prompt(b, i, n) implies g.last_user_id == Some(
        b[i].id,
    ) by {
        assert(latest_prompt(a, i, n));
        assert(is_prompt(a[i]));
        if g.last_user_id is Some {
            let k = choose|k: int|
                latest_prompt(a, k, n) && (#[trigger] a[k]).id == g.last_user_id->0;
            lemma_latest_is_one(a, i, k, n);
        }
    }
    if g.last_user_id is Some {
        let k = choose|k: int| latest_prompt(a, k, n) && (#[trigger] a[k]).id == g.last_user_id->0;
        assert(latest_prompt(b, k, n) && b[k].id == g.last_user_id->0);
    }
    assert forall|i: int| #[trigger] latest_speech(b, i, n) implies g.last_assistant_id == Some(
        b[i].id,
    ) by {
        assert(latest_speech(a, i, n));
        assert(is_speech(a[i]));
        if g.last_assistant_id is Some {
            let k = choose|k: int|
                latest_speech(a, k, n) && (#[trigger] a[k]).id == g.last_assistant_id->0;
            lemma_latest_is_one(a, i, k, n);
        }
    }
    if g.last_assistant_id is Some {
        let k = choose|k: int|
            latest_speech(a, k, n) && (#[trigger] a[k]).id == g.last_assistant_id->0;
        assert(latest_speech(b, k, n) && b[k].id == g.last_assistant_id->0);
    }
}

proof fn lemma_keeps_remembering(g: GraphView, h: GraphView, c: ComponentView)
    requires
        remembers(g),
        h.components == g.components.push(c),
        h.last_user_id == (if is_prompt(c) {
            Some(c.id)
        } else {
            g.last_user_id
        }),
        h.last_assistant_id == (if is_speech(c) {
            Some(c.id)
        } else {
            g.last_assistant_id
        }),
        h.tool_use_ids == g.tool_use_ids || (c.entity == "tool_use"@ && exists|call: Seq<char>|
            h.tool_use_ids == #[trigger] g.tool_use_ids.insert(call, c.id)),
    ensures
        remembers(h),
{
    let a = g.components;
    let b = h.components;
    let n = a.len() as int;
    lemma_latest_grow(a, c);
    assert(b[n] == c);
    assert forall|k: int| 0 <= k < n implies a[k] == b[k] by {}
    if is_prompt(c) {
        assert(latest_prompt(b, n, n + 1) && b[n].id == c.id);
    } else if g.last_user_id is Some {
        let k = choose|k: int| latest_prompt(a, k, n) && (#[trigger] a[k]).id == g.last_user_id->0;
        assert(latest_prompt(b, k, n + 1) && b[k].id == g.last_user_id->0);
    } else {
        assert forall|k: int| 0 <= k < b.len() implies !is_prompt(#[trigger] b[k]) by {
            if k < n {
                assert(!is_prompt(a[k]));
            }
        }
    }
    if is_speech(c) {
        assert(latest_speech(b, n, n + 1) && b[n].id == c.id);
    } else if g.last_assistant_id is Some {
        let k = choose|k: int|
            latest_speech(a, k, n) && (#[trigger] a[k]).id == g.last_assistant_id->0;
        assert(latest_speech(b, k, n + 1) && b[k].id == g.last_assistant_id->0);
    } else {
        assert forall|k: int| 0 <= k < b.len() implies !is_speech(#[trigger] b[k]) by {
            if k < n {
                assert(!is_speech(a[k]));
            }
        }
    }
    assert forall|call: Seq<char>| #[trigger] h.tool_use_ids.contains_key(call) implies exists|
        i: int,
    |
        0 <= i < b.len() && (#[trigger] b[i]).id == h.tool_use_ids[call] && b[i].entity
            == "tool_use"@ by {
        if g.tool_use_ids.contains_key(call) && h.tool_use_ids[call] == g.tool_use_ids[call] {
            let i = choose|i: int|
                0 <= i < a.len() && (#[trigger] a[i]).id == g.tool_use_ids[call] && a[i].entity
                    == "tool_use"@;
            assert(b[i].id == h.tool_use_ids[call] && b[i].entity == "tool_use"@);
        } else {
            assert(b[n].id == h.tool_use_ids[call] && b[n].entity == "tool_use"@);
        }
    }
}

proof fn lemma_block_keeps_well_linked(g: GraphView, role: Seq<char>, block: BlockView)
    requires
        well_linked(g),
    ensures
        well_linked(block_applied(g, role, block)),
{
    let h = block_applied(g, role, block);
    lemma_block_keeps_consistent(g, role, block);
    lemma_entities();
    if h.components.len() > g.components.len() {
        let c = h.components.last();
        let last = g.components.len() as int;
        assert(h.components =~= g.components.push(c));
        assert(h.components[last] == c);
        assert(id_has_number(c.id, g.components.len() + 1));
        lemma_remembered(g, c);
        lemma_keeps_remembering(g, h, c);
        let from = match block {
            BlockView::Text(_) => if role == "user"@ {
                g.last_assistant_id
            } else {
                g.last_user_id
            },
            BlockView::ToolUse { .. } => g.last_assistant_id,
            BlockView::ToolResult { tool_use_id, .. } => call_of(g, tool_use_id),
            _ => g.last_user_id,
        };
        let kind = match block {
            BlockView::ToolUse { .. } => "invocation"@,
            BlockView::ToolResult { .. } => "result"@,
            _ => "response"@,
        };
        if from is Some {
            if c.entity == "tool_result"@ {
                let i = choose|i: int|
                    0 <= i < g.components.len() && (#[trigger] g.components[i]).id == from->0
                        && g.components[i].entity == "tool_use"@;
                assert(h.components[i].id == from->0);
                assert(joins(h.components, i, last, kind));
            } else if is_speech(c) {
                let i = choose|i: int|
                    latest_prompt(h.components, i, last) && (#[trigger] h.components[i]).id
                        == from->0;
                assert(joins(h.components, i, last, kind));
            } else {
                let i = choose|i: int|
                    latest_speech(h.components, i, last) && (#[trigger] h.components[i]).id
                        == from->0;
                assert(joins(h.components, i, last, kind));
            }
        }
        lemma_grown_is_well_linked(g, h, c, from, kind);
    } else {
        assert(h == g);
    }
}

proof fn lemma_blocks_keep_well_linked(g: GraphView, role: Seq<char>, blocks: Seq<BlockView>)
    requires
        well_linked(g),
    ensures
        well_linked(blocks_applied(g, role, blocks)),
    decreases blocks.len(),
{
    if blocks.len() > 0 {
        lemma_blocks_keep_well_linked(g, role, blocks.drop_last());
        lemma_block_keeps_well_linked(
            blocks_applied(g, role, blocks.drop_last()),
            role,
            blocks.last(),
        );
    }
}

proof fn lemma_transcript_well_linked(transcript: Seq<(Seq<char>, Seq<BlockView>)>)
    ensures
        well_linked(said_applied(empty_graph(), transcript)),
    decreases transcript.len(),
{
    if transcript.len() > 0 {
        lemma_transcript_well_linked(transcript.drop_last());
        lemma_blocks_keep_well_linked(
            said_applied(empty_graph(), transcript.drop_last()),
            transcript.last().0,
            transcript.last().1,
        );
    }
}

/// Every link of a graph joins two components by what they are, and no component has two
/// links to it.
pub proof fn law_links_say_what_they_join(transcript: Seq<(Seq<char>, Seq<BlockView>)>)
    ensures
        links_join(said_applied(empty_graph(), transcript)),
        one_link_each(said_applied(empty_graph(), transcript)),
{
    lemma_transcript_well_linked(transcript);
}

/// What an assistant says or thinks is linked from the latest earlier message of the user
/// or tool result, whichever came last.
pub proof fn law_speech_answers_the_latest_prompt(
    transcript: Seq<(Seq<char>, Seq<BlockView>)>,
    i: int,
    j: int,
)
    requires
        0 <= i < j < said_applied(empty_graph(), transcript).components.len(),
        ({
            let c = said_applied(empty_graph(), transcript).components;
            &&& c[j].entity == "assistant_message"@ || c[j].entity == "thinking"@
            &&& c[i].entity == "user_message"@ || c[i].entity == "tool_result"@
            &&& forall|k: int|
                i < k < j ==> (#[trigger] c[k]).entity != "user_message"@ && c[k].entity
                    != "tool_result"@
        }),
    ensures
        said_applied(empty_graph(), transcript).links.contains(
            LinkView {
                from: said_applied(empty_graph(), transcript).components[i].id,
                to: said_applied(empty_graph(), transcript).components[j].id,
                kind: "response"@,
            },
        ),
{
    lemma_transcript_well_linked(transcript);
    lemma_entities();
    assert(joins(said_applied(empty_graph(), transcript).components, i, j, "response"@));
}

/// A message of the user is linked from the latest earlier speech or thinking of the
/// assistant; so is a tool call.
pub proof fn law_user_and_calls_follow_the_latest_speech(
    transcript: Seq<(Seq<char>, Seq<BlockView>)>,
    i: int,
    j: int,
)
    requires
        0 <= i < j < said_applied(empty_graph(), transcript).components.len(),
        ({
            let c = said_applied(empty_graph(), transcript).components;
            &&& c[j].entity == "user_message"@ || c[j].entity == "tool_use"@
            &&& c[i].entity == "assistant_message"@ || c[i].entity == "thinking"@
            &&& forall|k: int|
                i < k < j ==> (#[trigger] c[k]).entity != "assistant_message"@ && c[k].entity
                    != "thinking"@
        }),
    ensures
        said_applied(empty_graph(), transcript).links.contains(
            LinkView {
                from: said_applied(empty_graph(), transcript).components[i].id,
                to: said_applied(empty_graph(), transcript).components[j].id,
                kind: if said_applied(empty_graph(), transcript).components[j].entity
                    == "tool_use"@ {
                    "invocation"@
                } else {
                    "response"@
                },
            },
        ),
{
    lemma_transcript_well_linked(transcript);
    lemma_entities();
    let c = said_applied(empty_graph(), transcript).components;
    let kind = if c[j].entity == "tool_use"@ {
        "invocation"@
    } else {
        "response"@
    };
    assert(joins(c, i, j, kind));
}

/// Whether some block calls a tool under the id.
pub open spec fn calls_tool(
    transcript: Seq<(Seq<char>, Seq<BlockView>)>,
    call: Seq<char>,
) -> bool {
    exists|i: int, j: int|
        0 <= i < transcript.len() && 0 <= j < transcript[i].1.len() && (
        #[trigger] transcript[i].1[j] matches BlockView::ToolUse { id, .. } && id == call)
}

proof fn lemma_call_stays(
    g: GraphView,
    transcript: Seq<(Seq<char>, Seq<BlockView>)>,
    call: Seq<char>,
)
    requires
        !calls_tool(transcript, call),
    ensures
        call_of(said_applied(g, transcript), call) == call_of(g, call),
    decreases transcript.len(),
{
    if transcript.len() > 0 {
        let front = transcript.drop_last();
        assert(!calls_tool(front, call)) by {
            if calls_tool(front, call) {
                let (i, j) = choose|i: int, j: int|
                    0 <= i < front.len() && 0 <= j < front[i].1.len() && (
                    #[trigger] front[i].1[j] matches BlockView::ToolUse { id, .. } && id == call);
                assert(transcript[i].1[j] == front[i].1[j]);
            }
        }
        lemma_call_stays(g, front, call);
        let last = transcript.last();
        assert forall|j: int| 0 <= j < last.1.len() implies !(
        #[trigger] last.1[j] matches BlockView::ToolUse { id, .. } && id == call) by {
            assert(transcript[transcript.len() - 1].1[j] == last.1[j]);
        }
        lemma_call_stays_in_message(said_applied(g, front), last.0, last.1, call);
    }
}

proof fn lemma_call_stays_in_message(
    g: GraphView,
    role: Seq<char>,
    blocks: Seq<BlockView>,
    call: Seq<char>,
)
    requires
        forall|j: int|
            0 <= j < blocks.len() ==> !(#[trigger] blocks[j] matches BlockView::ToolUse { id, .. }
                && id == call),
    ensures
        call_of(blocks_applied(g, role, blocks), call) == call_of(g, call),
    decreases blocks.len(),
{
    if blocks.len() > 0 {
        let front = blocks.drop_last();
        assert forall|j: int| 0 <= j < front.len() implies !(
        #[trigger] front[j] matches BlockView::ToolUse { id, .. } && id == call) by {
            assert(blocks[j] == front[j]);
        }
        lemma_call_stays_in_message(g, role, front, call);
        assert(blocks[blocks.len() - 1] == blocks.last());
    }
}

/// A tool result is linked from its call: the latest tool call under its id, whatever was
/// said between the two.
pub proof fn law_result_follows_its_call(
    g: GraphView,
    role: Seq<char>,
    call: Seq<char>,
    name: Seq<char>,
    input: JsonView,
    between: Seq<(Seq<char>, Seq<BlockView>)>,
    content: JsonView,
)
    requires
        !calls_tool(between, call),
    ensures
        ({
            let called = block_applied(g, role, BlockView::ToolUse { id: call, name, input });
            let before = said_applied(called, between);
            let h = block_applied(
                before,
                role,
                BlockView::ToolResult { tool_use_id: call, content },
            );
            &&& called.components.last().entity == "tool_use"@
            &&& h.components.last().entity == "tool_result"@
            &&& h.links == before.links.push(
                LinkView {
                    from: called.components.last().id,
                    to: h.components.last().id,
                    kind: "result"@,
                },
            )
        }),
{
    let called = block_applied(g, role, BlockView::ToolUse { id: call, name, input });
    lemma_call_stays(called, between, call);
    assert(called.tool_use_ids.contains_key(call));
}

/// A tool result whose call is not in the transcript is linked from nothing.
pub proof fn law_result_without_call_is_unlinked(
    transcript: Seq<(Seq<char>, Seq<BlockView>)>,
    role: Seq<char>,
    call: Seq<char>,
    content: JsonView,
)
    requires
        !calls_tool(transcript, call),
    ensures
        block_applied(
            said_applied(empty_graph(), transcript),
            role,
            BlockView::ToolResult { tool_use_id: call, content },
        ).links == said_applied(empty_graph(), transcript).links,
{
    lemma_call_stays(empty_graph(), transcript, call);
}

/// Each block adds one component of its kind behind the others, with its text in the
/// title. A text that neither the user nor the assistant said, and a block of another
/// kind, adds none.
pub proof fn law_block_adds_its_component(g: GraphView, role: Seq<char>, block: BlockView)
    ensures
        ({
            let h = block_applied(g, role, block);
            let c = h.components.last();
            match block {
                BlockView::Text(text) => if role == "user"@ {
                    h.components.drop_last() == g.components && c.entity == "user_message"@
                        && c.title == "user: "@ + truncated(text, 60)
                } else if role == "assistant"@ {
                    h.components.drop_last() == g.components && c.entity == "assistant_message"@
                        && c.title == "assistant: "@ + truncated(text, 60)
                } else {
                    h == g
                },
                BlockView::ToolUse { name, input, .. } => h.components.drop_last() == g.components
                    && c.entity == "tool_use"@ && c.title == tool_use_title_of(name, input),
                BlockView::ToolResult { content, .. } => h.components.drop_last() == g.components
                    && c.entity == "tool_result"@ && c.title == tool_result_title_of(content),
                BlockView::Thinking(text) => h.components.drop_last() == g.components && c.entity
                    == "thinking"@ && c.title == "thinking: "@ + truncated(text, 60),
                BlockView::Unknown => h == g,
            }
        }),
        block_applied(g, role, block).components.len() <= g.components.len() + 1,
{
    lemma_entities();
    let h = block_applied(g, role, block);
    if h.components.len() > g.components.len() {
        assert(h.components.drop_last() =~= g.components);
    }
}

/// A short text stays whole but for its line breaks. Of a longer one the beginning is
/// kept, as much as fits, with an ellipsis behind it.
pub proof fn law_truncated_keeps_the_beginning(s: Seq<char>, max: nat)
    ensures
        byte_len(replaced(s, '\n', ' ')) <= max ==> truncated(s, max) == replaced(s, '\n', ' '),
        byte_len(replaced(s, '\n', ' ')) > max ==> exists|k: int|
            0 <= k < s.len() && truncated(s, max) == #[trigger] replaced(s, '\n', ' ').take(k)
                + "..."@ && byte_len(replaced(s, '\n', ' ').take(k)) <= max && byte_len(
                replaced(s, '\n', ' ').take(k + 1),
            ) > max,
        replaced(s, '\n', ' ').len() == s.len(),
        forall|i: int|
            0 <= i < s.len() ==> (#[trigger] replaced(s, '\n', ' ')[i]) == if s[i] == '\n' {
                ' '
            } else {
                s[i]
            },
{
    let line = replaced(s, '\n', ' ');
    lemma_fitting(line, max);
    if byte_len(line) > max {
        let k = fitting(line, max) as int;
        if k == line.len() {
            assert(line.take(k) =~= line);
        }
        assert(truncated(s, max) == line.take(k) + "..."@);
        assert(byte_len(line.take(k + 1)) > max);
    }
}

/// The size of a tool result: of a text its bytes, of several items the bytes of all their
/// texts together.
pub proof fn law_result_sizes_add_up(a: Seq<JsonView>, b: Seq<JsonView>, text: Seq<char>)
    ensures
        result_size(JsonView::Str(text)) == byte_len(text),
        result_size(JsonView::Array(a + b)) == result_size(JsonView::Array(a)) + result_size(
            JsonView::Array(b),
        ),
        result_size(JsonView::Array(Seq::empty())) == 0,
    decreases b.len(),
{
    if b.len() == 0 {
        assert(a + b =~= a);
    } else {
        law_result_sizes_add_up(a, b.drop_last(), text);
        assert((a + b).drop_last() =~= a + b.drop_last());
        assert((a + b).last() == b.last());
    }
}

/// An item with a text counts with the bytes of the text, one without does not count.
pub proof fn law_result_size_of_one_item(item: JsonView, text: Seq<char>)
    ensures
        member(item, "text"@) == Some(JsonView::Str(text)) ==> result_size(
            JsonView::Array(seq![item]),
        ) == byte_len(text),
        member(item, "text"@) is None ==> result_size(JsonView::Array(seq![item])) == 0,
{
    reveal_with_fuel(items_size, 2);
    assert(seq![item].drop_last() =~= Seq::<JsonView>::empty());
}

/// A conversion holds the graph of what its text says.
pub proof fn law_conversion_is_the_graph(
    input: &str,
    r: Option<Conversion>,
    builder: &mut GraphBuilder,
    line: &SessionLine,
)
    requires
        call_ensures(try_convert, (input,), r),
        call_ensures(GraphBuilder::process_line, (builder, line), ()),
    ensures
        r is Some <==> said_fits(transcript_of(input@)),
        r matches Some(c) ==> component_views(c.graph.components@) == said_applied(
            empty_graph(),
            transcript_of(input@),
        ).components && link_views(c.graph.links@) == said_applied(
            empty_graph(),
            transcript_of(input@),
        ).links,
        final(builder)@ == blocks_applied(
            old(builder)@,
            line_role(*line),
            line_blocks(*line),
        ),
{
}

/// What a text says is what its lines say, each with the role and the blocks of its
/// message.
pub proof fn law_transcript_is_read_line_by_line(a: Seq<Seq<char>>, b: Seq<Seq<char>>)
    ensures
        transcript_in(counted_lines(a + b)) == transcript_in(counted_lines(a)) + transcript_in(
            counted_lines(b),
        ),
{
    lemma_lines_said(a + b);
    lemma_lines_said(a);
    lemma_lines_said(b);
    lemma_lines_said_concat(a, b);
}

/// A line with a message says what the message says, with its role.
pub proof fn law_line_says_its_message(v: JsonView, m: JsonView, role: Seq<char>, text: Seq<char>)
    requires
        v is Object,
        m is Object,
        member(v, "type"@) is None || member(v, "type"@)->0 is Str,
        member(v, "uuid"@) is None || member(v, "uuid"@)->0 is Str,
        member(v, "parentUuid"@) is None || member(v, "parentUuid"@)->0 is Str,
        member(v, "message"@) == Some(m),
        member(m, "role"@) == Some(JsonView::Str(role)),
        member(m, "content"@) == Some(JsonView::Str(text)),
    ensures
        said_in(v) == Some((role, seq![BlockView::Text(text)])),
{
}

/// The blocks of a message are those of its content, one for each, in order; a block that
/// cannot be read refuses the message.
pub proof fn law_blocks_are_read_in_order(a: Seq<JsonView>, b: Seq<JsonView>)
    ensures
        blocks_in(a + b) == (match (blocks_in(a), blocks_in(b)) {
            (Some(x), Some(y)) => Some(x + y),
            _ => None,
        }),
    decreases b.len(),
{
    if b.len() == 0 {
        assert(a + b =~= a);
        if blocks_in(a) is Some {
            assert(blocks_in(a)->0 + Seq::<BlockView>::empty() =~= blocks_in(a)->0);
        }
    } else {
        law_blocks_are_read_in_order(a, b.drop_last());
        assert((a + b).drop_last() =~= a + b.drop_last());
        assert((a + b).last() == b.last());
        if blocks_in(a) is Some && blocks_in(b) is Some {
            let x = blocks_in(a)->0;
            let y = blocks_in(b)->0;
            assert((x + y.drop_last()).push(y.last()) =~= x + y);
            assert(y.drop_last() =~= blocks_in(b.drop_last())->0);
        }
    }
}

/// A block is read by its type: a text with its text, a call with its id, name and input, a
/// result with the id of its call and its content, thinking with its text. A block of an
/// unknown type is passed over.
pub proof fn law_block_is_read_by_its_type(
    v: JsonView,
    text: Seq<char>,
    id: Seq<char>,
    name: Seq<char>,
    value: JsonView,
    kind: Seq<char>,
)
    ensures
        member(v, "type"@) == Some(JsonView::Str("text"@)) && member(v, "text"@) == Some(
            JsonView::Str(text),
        ) ==> block_in(v) == Some(BlockView::Text(text)),
        member(v, "type"@) == Some(JsonView::Str("tool_use"@)) && member(v, "id"@) == Some(
            JsonView::Str(id),
        ) && member(v, "name"@) == Some(JsonView::Str(name)) && member(v, "input"@) == Some(value)
            ==> block_in(v) == Some(BlockView::ToolUse { id, name, input: value }),
        member(v, "type"@) == Some(JsonView::Str("tool_result"@)) && member(v, "tool_use_id"@)
            == Some(JsonView::Str(id)) && member(v, "content"@) == Some(value) ==> block_in(v)
            == Some(BlockView::ToolResult { tool_use_id: id, content: value }),
        member(v, "type"@) == Some(JsonView::Str("thinking"@)) && member(v, "thinking"@) == Some(
            JsonView::Str(text),
        ) ==> block_in(v) == Some(BlockView::Thinking(text)),
        member(v, "type"@) == Some(JsonView::Str(kind)) && kind != "text"@ && kind != "tool_use"@
            && kind != "tool_result"@ && kind != "thinking"@ ==> block_in(v) == Some(
            BlockView::Unknown,
        ),
{
    lemma_entities();
    reveal_strlit("text");
    reveal_strlit("tool_use");
    reveal_strlit("tool_result");
    reveal_strlit("thinking");
    assert("text"@.len() == 4);
}

/// The title of a call names the tool and the first two arguments by the order of their
/// names, each cut to 30 bytes; of an input that is no object it names none.
pub proof fn law_call_is_titled_by_its_arguments(
    name: Seq<char>,
    m: Map<Seq<char>, JsonView>,
    a: Seq<char>,
    b: Seq<char>,
    text_a: Seq<char>,
    text_b: Seq<char>,
    other: JsonView,
)
    requires
        m.contains_key(a) && m.contains_key(b) && a != b,
        text_less(a, b),
        forall|o: Seq<char>| #[trigger]
            m.contains_key(o) && o != a && o != b ==> text_less(a, o) && text_less(b, o),
        m[a] == JsonView::Str(text_a),
        m[b] == JsonView::Str(text_b),
        !(other is Object),
    ensures
        tool_use_title_of(name, JsonView::Object(m)) == "tool_use: "@ + name + "("@ + truncated(
            text_a,
            30,
        ) + ", "@ + truncated(text_b, 30) + ")"@,
        tool_use_title_of(name, other) == "tool_use: "@ + name + "("@ + ")"@,
{
    law_first_two_come_first(m, a, b);
    let shown = shown_arguments(JsonView::Object(m));
    assert(shown =~= seq![text_a, text_b]);
    let cut = shown.map_values(|s: Seq<char>| truncated(s, ARGUMENT_MAX as nat));
    assert(cut =~= seq![truncated(text_a, 30), truncated(text_b, 30)]);
    reveal_with_fuel(joined, 3);
    assert(cut.drop_last() =~= seq![truncated(text_a, 30)]);
    assert(joined(cut, ", "@) == truncated(text_a, 30) + ", "@ + truncated(text_b, 30));
    assert(tool_use_title_of(name, JsonView::Object(m)) =~= "tool_use: "@ + name + "("@ + truncated(
        text_a,
        30,
    ) + ", "@ + truncated(text_b, 30) + ")"@);
    let none = shown_arguments(other).map_values(
        |s: Seq<char>| truncated(s, ARGUMENT_MAX as nat),
    );
    assert(none =~= Seq::<Seq<char>>::empty());
    assert(tool_use_title_of(name, other) =~= "tool_use: "@ + name + "("@ + ")"@);
}

/// The title of a result says how large its text is.
pub proof fn law_result_is_titled_by_its_size(text: Seq<char>, item: JsonView)
    ensures
        tool_result_title_of(JsonView::Str(text)) == "tool_result: ["@ + decimal(byte_len(text))
            + " chars]"@,
        member(item, "text"@) == Some(JsonView::Str(text)) ==> tool_result_title_of(
            JsonView::Array(seq![item]),
        ) == "tool_result: ["@ + decimal(byte_len(text)) + " chars]"@,
{
    law_result_size_of_one_item(item, text);
}

/// Components are numbered from one on, in three places at least: messages and thoughts as
/// `msg_`, calls as `tool_`, and results as `tool_` with an `r` behind the number.
pub proof fn law_component_is_numbered(g: GraphView, role: Seq<char>, block: BlockView)
    requires
        role == "user"@ || role == "assistant"@,
    ensures
        ({
            let h = block_applied(g, role, block);
            let id = h.components.last().id;
            let number = padded(g.counter + 1, 3);
            &&& !(block is Unknown) ==> h.counter == g.counter + 1
            &&& block is Text || block is Thinking ==> id == "msg_"@ + number
            &&& block is ToolUse ==> id == "tool_"@ + number
            &&& block is ToolResult ==> id == "tool_"@ + number + "r"@
            &&& number.len() >= 3
            &&& digits_value(number) == g.counter + 1
        }),
{
    reveal_strlit("msg");
    reveal_strlit("tool");
    reveal_strlit("_");
    reveal_strlit("msg_");
    reveal_strlit("tool_");
    let n = g.counter + 1;
    lemma_padded_value(n, 3);
    assert("msg"@ + "_"@ =~= "msg_"@);
    assert("tool"@ + "_"@ =~= "tool_"@);
}

/// A line whose message has blocks says them under the role of the message; a line without a
/// message says nothing.
pub proof fn law_line_says_its_blocks(
    v: JsonView,
    m: JsonView,
    role: Seq<char>,
    items: Seq<JsonView>,
)
    requires
        v is Object,
        m is Object,
        member(v, "type"@) is None || member(v, "type"@)->0 is Str,
        member(v, "uuid"@) is None || member(v, "uuid"@)->0 is Str,
        member(v, "parentUuid"@) is None || member(v, "parentUuid"@)->0 is Str,
        member(m, "role"@) == Some(JsonView::Str(role)),
        member(m, "content"@) == Some(JsonView::Array(items)),
    ensures
        member(v, "message"@) == Some(m) ==> said_in(v) == (match blocks_in(items) {
            Some(blocks) => Some((role, blocks)),
            None => None,
        }),
        member(v, "message"@) is None ==> (said_in(v) matches Some(s) && s.1.len() == 0),
        items.len() == 0 ==> (blocks_in(items) matches Some(b) && b.len() == 0),
        items.len() == 1 ==> blocks_in(items) == (match block_in(items[0]) {
            Some(b) => Some(seq![b]),
            None => None,
        }),
{
    if items.len() == 1 {
        reveal_with_fuel(blocks_in, 2);
        assert(items.drop_last() =~= Seq::<JsonView>::empty());
        if let Some(b) = block_in(items[0]) {
            assert(Seq::<BlockView>::empty().push(b) =~= seq![b]);
        }
    }
}

/// What a block leaves out is empty: a call has no input, a result no content and a thought
/// no words.
pub proof fn law_missing_parts_are_empty(v: JsonView, id: Seq<char>, name: Seq<char>)
    ensures
        member(v, "type"@) == Some(JsonView::Str("tool_use"@)) && member(v, "id"@) == Some(
            JsonView::Str(id),
        ) && member(v, "name"@) == Some(JsonView::Str(name)) && member(v, "input"@) is None
            ==> block_in(v) == Some(BlockView::ToolUse { id, name, input: JsonView::Null }),
        member(v, "type"@) == Some(JsonView::Str("tool_use"@)) && member(v, "id"@) is None
            ==> block_in(v) is None,
        member(v, "type"@) == Some(JsonView::Str("tool_result"@)) && member(v, "tool_use_id"@)
            == Some(JsonView::Str(id)) && member(v, "content"@) is None ==> block_in(v) == Some(
            BlockView::ToolResult { tool_use_id: id, content: JsonView::Null },
        ),
        member(v, "type"@) == Some(JsonView::Str("thinking"@)) && member(v, "thinking"@) is None
            ==> (block_in(v) matches Some(BlockView::Thinking(t)) && t.len() == 0),
        member(v, "type"@) == Some(JsonView::Str("text"@)) && member(v, "text"@) is None
            ==> block_in(v) is None,
        member(v, "type"@) is None ==> block_in(v) is None,
{
    reveal_strlit("text");
    reveal_strlit("tool_use");
    reveal_strlit("tool_result");
    reveal_strlit("thinking");
    assert("text"@.len() == 4 && "tool_use"@.len() == 8 && "tool_result"@.len() == 11
        && "thinking"@.len() == 8);
    assert("tool_use"@[1] == 'o' && "thinking"@[1] == 'h');
}

/// The lines that are skipped are those that are not blank and cannot be read, by their
/// numbers from one on.
pub proof fn law_unreadable_lines_are_skipped(lines: Seq<Seq<char>>, n: nat)
    ensures
        skipped_in(counted_lines(lines)).contains(n) <==> 1 <= n <= lines.len() && trimmed(
            lines[n - 1],
            CharClass::White,
        ).len() > 0 && said_text(trimmed(lines[n - 1], CharClass::White)) is None,
    decreases lines.len(),
{
    if lines.len() > 0 {
        let front = counted_lines(lines.drop_last());
        let text = trimmed(lines.last(), CharClass::White);
        let earlier = skipped_in(front);
        let all = skipped_in(counted_lines(lines));
        law_unreadable_lines_are_skipped(lines.drop_last(), n);
        if text.len() > 0 {
            assert(front.push((lines.len(), text)).drop_last() =~= front);
            if said_text(text) is None {
                assert(all == earlier.push(lines.len()));
                assert(all[earlier.len() as int] == lines.len());
                if earlier.contains(n) {
                    let k = choose|k: int| 0 <= k < earlier.len() && earlier[k] == n;
                    assert(all[k] == n);
                }
                if all.contains(n) && n != lines.len() {
                    let k = choose|k: int| 0 <= k < all.len() && all[k] == n;
                    assert(earlier[k] == n);
                }
            }
        }
    }
}

/// Lines are taken in one after the other, each with what its own message holds.
pub proof fn law_lines_are_taken_in_order(g: GraphView, a: Seq<SessionLine>, line: SessionLine)
    ensures
        lines_applied(g, a.push(line)) == (match line.message {
            Some(m) => match m.content {
                MessageContent::Empty => lines_applied(g, a),
                MessageContent::Text(s) => block_applied(
                    lines_applied(g, a),
                    m.role@,
                    BlockView::Text(s@),
                ),
                MessageContent::Blocks(b) => blocks_applied(
                    lines_applied(g, a),
                    m.role@,
                    Seq::new(b@.len(), |i: int| b@[i]@),
                ),
            },
            None => lines_applied(g, a),
        }),
{
    assert(a.push(line).drop_last() =~= a);
    reveal_with_fuel(blocks_applied, 2);
    if let Some(m) = line.message {
        if let MessageContent::Text(s) = m.content {
            let one = seq![BlockView::Text(s@)];
            assert(one.drop_last() =~= Seq::<BlockView>::empty());
        }
    }
}

/// The blocks of a message are taken in one after the other.
pub proof fn law_blocks_are_taken_in_order(
    g: GraphView,
    role: Seq<char>,
    a: Seq<BlockView>,
    b: Seq<BlockView>,
)
    ensures
        blocks_applied(g, role, a + b) == blocks_applied(blocks_applied(g, role, a), role, b),
    decreases b.len(),
{
    if b.len() == 0 {
        assert(a + b =~= a);
    } else {
        assert((a + b).drop_last() =~= a + b.drop_last());
        law_blocks_are_taken_in_order(g, role, a, b.drop_last());
    }
}

} // verus!
