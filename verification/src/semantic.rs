//! Application text: what an accessibility tree says, bounded in depth, nodes and bytes, and which
//! window it belongs to.
//!
//! The tree belongs to the platform: the walks below say which node to read next and take what was
//! read of it. Nodes are known by numbers that the caller gives out.

use std::collections::VecDeque;

use vstd::prelude::*;
use vstd::utf8::{encode_scalar, encode_utf8};

use crate::appshots::AccessibilitySnapshot;
use crate::text::{
    chars_of, contains, holds, is_space, join, joined, law_trimming_takes_the_blanks_around,
    lemma_rows_push, lemma_single_spaced, lemma_words_joined, opt_str, opt_text, rows, same,
    same_str, single_spaced, split_words, string_of, trim, trimmed, words,
};

verus! {

pub const MAX_DEPTH: usize = 24;

pub const MAX_NODES: usize = 1_500;

pub const MAX_BYTES: usize = 96 * 1024;

pub const MAX_TEXT_CHARS: usize = 4_096;

/// Milliseconds after which a walk is given up.
pub const WALK_DEADLINE: u64 = 900;

// ---------------------------------------------------------------------------
// Letters
// ---------------------------------------------------------------------------

/// Whether Unicode counts a character as a letter or a number.
pub uninterp spec fn alphanumeric(c: char) -> bool;

/// `char::is_alphanumeric`: whether a character is alphabetic or numeric in Unicode; of the ASCII
/// ones those are the letters and the digits.
#[verifier::external_body]
fn is_alphanumeric(c: char) -> (r: bool)
    ensures
        r == alphanumeric(c),
        (c as u32) < 128 ==> r == ('0' <= c <= '9' || 'a' <= c <= 'z' || 'A' <= c <= 'Z'),
{
    c.is_alphanumeric()
}

/// The lower case of a character, which may take several.
pub uninterp spec fn lower_case(c: char) -> Seq<char>;

/// `char::to_lowercase`: the lower case of a character; an ASCII capital has its small letter, and
/// the other ASCII characters have themselves.
#[verifier::external_body]
fn to_lowercase(c: char) -> (r: Vec<char>)
    ensures
        r@ == lower_case(c),
        'A' <= c <= 'Z' ==> r@ == seq![((c as u32) + 32) as char],
        (c as u32) < 128 && !('A' <= c <= 'Z') ==> r@ == seq![c],
{
    c.to_lowercase().collect()
}

/// The letters and numbers of a text, in lower case.
pub open spec fn normal(s: Seq<char>) -> Seq<char>
    decreases s.len(),
{
    if s.len() == 0 {
        Seq::empty()
    } else {
        let front = normal(s.drop_last());
        if alphanumeric(s.last()) {
            front + lower_case(s.last())
        } else {
            front
        }
    }
}

fn normalized(value: &str) -> (r: Vec<char>)
    ensures
        r@ == normal(value@),
{
    let chars = chars_of(value);
    let mut r: Vec<char> = Vec::new();
    for i in 0..chars.len()
        invariant
            chars@ == value@,
            r@ == normal(chars@.take(i as int)),
    {
        proof {
            let upto = chars@.take(i + 1);
            assert(upto.drop_last() =~= chars@.take(i as int));
            assert(upto.last() == chars@[i as int]);
        }
        if is_alphanumeric(chars[i]) {
            let mut lower = to_lowercase(chars[i]);
            r.append(&mut lower);
        }
    }
    assert(chars@.take(chars@.len() as int) =~= value@);
    r
}

// ---------------------------------------------------------------------------
// Identity
// ---------------------------------------------------------------------------

/// The text of a focused window.
pub struct SemanticCapture {
    pub app_name: String,
    pub window_title: Option<String>,
    pub snapshot: AccessibilitySnapshot,
}

pub open spec fn normal_opt(s: Option<Seq<char>>) -> Option<Seq<char>> {
    match s {
        Some(s) => Some(normal(s)),
        None => None,
    }
}

impl SemanticCapture {
    /// What tells one window from another: its application and its title, but for case and signs.
    pub open spec fn identity(self) -> (Seq<char>, Option<Seq<char>>) {
        (normal(self.app_name@), normal_opt(opt_text(self.window_title)))
    }

    pub fn same_window(&self, other: &Self) -> (r: bool)
        ensures
            r == (self.identity() == other.identity()),
    {
        let left = normalized(self.app_name.as_str());
        let right = normalized(other.app_name.as_str());
        if !same(left.as_slice(), right.as_slice()) {
            return false;
        }
        match (&self.window_title, &other.window_title) {
            (Some(left), Some(right)) => {
                let left = normalized(left.as_str());
                let right = normalized(right.as_str());
                same(left.as_slice(), right.as_slice())
            },
            (None, None) => true,
            _ => false,
        }
    }

    /// Whether this is the window that X11 names: by its title where both have one, otherwise by
    /// its class, which contains the application's name or is contained in it.
    pub fn matches_x11(&self, wm_class: Option<&str>, title: Option<&str>) -> (r: bool)
        ensures
            r == match (opt_str(title), opt_text(self.window_title)) {
                (Some(expected), Some(actual)) => normal(expected) == normal(actual),
                _ => match opt_str(wm_class) {
                    Some(class) => normal(class).len() > 0 && (contains(
                        normal(class),
                        normal(self.app_name@),
                    ) || contains(normal(self.app_name@), normal(class))),
                    None => false,
                },
            },
    {
        if let (Some(expected), Some(actual)) = (title, &self.window_title) {
            let expected = normalized(expected);
            let actual = normalized(actual.as_str());
            return same(expected.as_slice(), actual.as_slice());
        }
        match wm_class {
            Some(class) => {
                let class = normalized(class);
                let app = normalized(self.app_name.as_str());
                class.len() > 0 && (holds(class.as_slice(), app.as_slice()) || holds(
                    app.as_slice(),
                    class.as_slice(),
                ))
            },
            None => false,
        }
    }
}

/// A window as its application lists it; one whose state could not be read is not active.
pub struct WindowState {
    pub active: bool,
    pub title: Option<String>,
}

/// Where the text is read.
#[derive(Debug, Clone, Copy, PartialEq, Eq, Structural)]
pub enum Focus {
    Window(usize),
    Application,
}

pub struct Selection {
    pub focus: Focus,
    pub title: Option<String>,
}

/// The first active window from the `i`th on.
pub open spec fn active_from(windows: Seq<WindowState>, i: int) -> Option<int>
    decreases windows.len() - i,
{
    if i < 0 || i >= windows.len() {
        None
    } else if windows[i].active {
        Some(i)
    } else {
        active_from(windows, i + 1)
    }
}

/// A title, unless it is blank.
pub open spec fn shown_title(title: Option<String>) -> Option<Seq<char>> {
    match title {
        Some(title) => if trim(title@).len() == 0 {
            None
        } else {
            Some(title@)
        },
        None => None,
    }
}

/// A title, unless it is blank.
pub fn title_of(title: &Option<String>) -> (r: Option<String>)
    ensures
        opt_text(r) == shown_title(*title),
{
    match title {
        Some(text) => {
            let chars = chars_of(text.as_str());
            if trimmed(chars.as_slice()).len() == 0 {
                None
            } else {
                Some(text.clone())
            }
        },
        None => None,
    }
}

/// What an application offers: its first active window; otherwise, where the application itself is
/// active, its first window, or itself where it has none.
pub fn select_focus(app_active: bool, windows: &Vec<WindowState>) -> (r: Option<Selection>)
    ensures
        match active_from(windows@, 0) {
            Some(i) => {
                &&& r is Some
                &&& r->0.focus == Focus::Window(i as usize)
                &&& opt_text(r->0.title) == shown_title(windows@[i].title)
            },
            None => {
                &&& r is Some <==> app_active
                &&& r is Some ==> r->0.title is None && r->0.focus == if windows@.len() > 0 {
                    Focus::Window(0)
                } else {
                    Focus::Application
                }
            },
        },
{
    for i in 0..windows.len()
        invariant
            active_from(windows@, i as int) == active_from(windows@, 0),
    {
        if windows[i].active {
            return Some(Selection { focus: Focus::Window(i), title: title_of(&windows[i].title) });
        }
    }
    if !app_active {
        return None;
    }
    let focus = if windows.len() > 0 {
        Focus::Window(0)
    } else {
        Focus::Application
    };
    Some(Selection { focus, title: None })
}

// ---------------------------------------------------------------------------
// Lines
// ---------------------------------------------------------------------------

/// The bytes that a text takes.
pub open spec fn byte_len(s: Seq<char>) -> nat {
    encode_utf8(s).len()
}

pub proof fn lemma_byte_len_concat(a: Seq<char>, b: Seq<char>)
    ensures
        byte_len(a + b) == byte_len(a) + byte_len(b),
    decreases a.len(),
{
    if a.len() == 0 {
        assert(a + b =~= b);
    } else {
        assert((a + b).drop_first() =~= a.drop_first() + b);
        lemma_byte_len_concat(a.drop_first(), b);
    }
}

/// A text with single spaces between its words, cut after so many characters.
pub open spec fn cleaned(s: Seq<char>) -> Seq<char> {
    let line = join(words(s), " "@);
    if line.len() > MAX_TEXT_CHARS {
        line.take(MAX_TEXT_CHARS as int)
    } else {
        line
    }
}

pub fn clean(value: &str) -> (r: Vec<char>)
    ensures
        r@ == cleaned(value@),
{
    let chars = chars_of(value);
    let parts = split_words(chars.as_slice());
    let mut line = joined(&parts, " ");
    if line.len() > MAX_TEXT_CHARS {
        line.truncate(MAX_TEXT_CHARS);
    }
    line
}

/// Two spaces for each level.
pub open spec fn indent(depth: nat) -> Seq<char>
    decreases depth,
{
    if depth == 0 {
        Seq::empty()
    } else {
        indent((depth - 1) as nat) + seq![' ', ' ']
    }
}

fn push_indent(s: &mut String, depth: usize)
    ensures
        final(s)@ == old(s)@ + indent(depth as nat),
{
    let ghost start = s@;
    assert(s@ =~= start + indent(0));
    for i in 0..depth
        invariant
            s@ == start + indent(i as nat),
    {
        s.push(' ');
        s.push(' ');
        assert(s@ =~= start + indent((i + 1) as nat));
    }
}

/// The line of a node that says something.
pub open spec fn node_line(depth: nat, role: Seq<char>, fields: Seq<Seq<char>>) -> Seq<char> {
    indent(depth) + role + seq![':', ' '] + join(fields, " | "@) + seq!['\n']
}

fn line_of(depth: usize, role: &str, fields: &Vec<Vec<char>>) -> (r: String)
    ensures
        r@ == node_line(depth as nat, role@, rows(fields@)),
{
    let mut r = String::new();
    push_indent(&mut r, depth);
    r.push_str(role);
    r.push(':');
    r.push(' ');
    let fields_text = joined(fields, " | ");
    let fields_text = string_of(fields_text.as_slice());
    r.push_str(fields_text.as_str());
    r.push('\n');
    assert(r@ =~= node_line(depth as nat, role@, rows(fields@)));
    r
}

/// What a node of the Linux tree says: its name, its description and its text, those that are not
/// blank, the latter two unless they repeat the name. A password's text is left out.
pub open spec fn atspi_fields(
    password: bool,
    name: Seq<char>,
    description: Seq<char>,
    text: Seq<char>,
) -> Seq<Seq<char>> {
    let first = if trim(name).len() > 0 {
        seq![cleaned(name)]
    } else {
        Seq::empty()
    };
    let second = if trim(description).len() > 0 && trim(description) != trim(name) {
        first.push(cleaned(description))
    } else {
        first
    };
    if !password && trim(text).len() > 0 && trim(text) != trim(name) {
        second.push(cleaned(text))
    } else {
        second
    }
}

/// What a node of the Windows tree says, where the texts are compared as they will be shown. A
/// password's text is left out.
pub open spec fn uia_fields(
    password: bool,
    name: Seq<char>,
    help: Seq<char>,
    text: Seq<char>,
) -> Seq<Seq<char>> {
    let name = cleaned(name);
    let help = cleaned(help);
    let text = cleaned(text);
    let first = if name.len() > 0 {
        seq![name]
    } else {
        Seq::empty()
    };
    let second = if help.len() > 0 && help != name {
        first.push(help)
    } else {
        first
    };
    if !password && text.len() > 0 && text != name {
        second.push(text)
    } else {
        second
    }
}

/// Whether a node's text is worth asking for: it has some, and is no password.
pub fn reads_text(password: bool, has_text: bool) -> (r: bool)
    ensures
        r == (has_text && !password),
{
    has_text && !password
}

/// The fields of a node of the Linux tree.
pub fn atspi_node(password: bool, name: &str, description: &str, text: &str) -> (r: Vec<Vec<char>>)
    ensures
        rows(r@) == atspi_fields(password, name@, description@, text@),
{
    let mut r: Vec<Vec<char>> = Vec::new();
    let names = chars_of(name);
    let descriptions = chars_of(description);
    let texts = chars_of(text);
    let short = trimmed(names.as_slice());
    assert(rows(r@) =~= Seq::<Seq<char>>::empty());
    if short.len() > 0 {
        let field = clean(name);
        let ghost before = r@;
        proof {
            lemma_rows_push(before, field);
        }
        r.push(field);
        assert(rows(r@) =~= seq![cleaned(name@)]);
    }
    let other = trimmed(descriptions.as_slice());
    if other.len() > 0 && !same(other, short) {
        let field = clean(description);
        let ghost before = r@;
        proof {
            lemma_rows_push(before, field);
        }
        r.push(field);
    }
    let last = trimmed(texts.as_slice());
    if !password && last.len() > 0 && !same(last, short) {
        let field = clean(text);
        let ghost before = r@;
        proof {
            lemma_rows_push(before, field);
        }
        r.push(field);
    }
    r
}

/// The fields of a node of the Windows tree.
pub fn uia_node(password: bool, name: &str, help: &str, text: &str) -> (r: Vec<Vec<char>>)
    ensures
        rows(r@) == uia_fields(password, name@, help@, text@),
{
    let mut r: Vec<Vec<char>> = Vec::new();
    let name_field = clean(name);
    let help_field = clean(help);
    let text_field = clean(text);
    let say_help = help_field.len() > 0 && !same(help_field.as_slice(), name_field.as_slice());
    let say_text = !password && text_field.len() > 0 && !same(text_field.as_slice(), name_field.as_slice());
    assert(rows(r@) =~= Seq::<Seq<char>>::empty());
    if name_field.len() > 0 {
        proof {
            lemma_rows_push(r@, name_field);
        }
        r.push(name_field);
        assert(rows(r@) =~= seq![cleaned(name@)]);
    }
    if say_help {
        proof {
            lemma_rows_push(r@, help_field);
        }
        r.push(help_field);
    }
    if say_text {
        proof {
            lemma_rows_push(r@, text_field);
        }
        r.push(text_field);
    }
    r
}

// ---------------------------------------------------------------------------
// Breadth first
// ---------------------------------------------------------------------------

/// A node to read.
#[derive(Debug, Clone, Copy, PartialEq, Eq, Structural)]
pub struct Visit {
    pub node: u64,
    pub depth: usize,
}

/// A walk that reads a tree level by level.
pub struct TreeWalk {
    pub queue: VecDeque<Visit>,
    pub output: String,
    pub nodes: usize,
    pub truncated: bool,
}

/// The children of a node, one level down.
pub open spec fn children_at(children: Seq<u64>, depth: usize) -> Seq<Visit> {
    children.map_values(|node: u64| Visit { node, depth })
}

impl TreeWalk {
    /// Within its bounds.
    pub open spec fn wf(self) -> bool {
        &&& byte_len(self.output@) <= MAX_BYTES
        &&& self.nodes <= MAX_NODES
    }

    pub fn new(root: u64) -> (r: Self)
        ensures
            r.wf(),
            r.queue@ == seq![Visit { node: root, depth: 0 }],
            r.output@ == Seq::<char>::empty(),
            r.nodes == 0,
            !r.truncated,
    {
        let mut queue: VecDeque<Visit> = VecDeque::new();
        queue.push_back(Visit { node: root, depth: 0 });
        let output = String::new();
        assert(queue@ =~= seq![Visit { node: root, depth: 0 }]);
        assert(byte_len(output@) == 0);
        TreeWalk { queue, output, nodes: 0, truncated: false }
    }

    /// Whether a limit ends the walk at a node of this depth.
    pub open spec fn over(self, depth: usize, expired: bool) -> bool {
        depth > MAX_DEPTH || self.nodes >= MAX_NODES || byte_len(self.output@) >= MAX_BYTES
            || expired
    }

    /// The next node to read. A limit that is reached first ends the walk, and what is left counts
    /// as cut off.
    pub fn next(&mut self, expired: bool) -> (r: Option<Visit>)
        requires
            old(self).wf(),
        ensures
            final(self).wf(),
            final(self).output == old(self).output,
            if old(self).queue@.len() == 0 {
                &&& r is None
                &&& final(self).queue@.len() == 0
                &&& final(self).nodes == old(self).nodes
                &&& final(self).truncated == old(self).truncated
            } else if old(self).over(old(self).queue@[0].depth, expired) {
                &&& r is None
                &&& final(self).truncated
                &&& final(self).queue@.len() == 0
                &&& final(self).nodes == old(self).nodes
            } else {
                &&& r == Some(old(self).queue@[0])
                &&& final(self).queue@ == old(self).queue@.skip(1)
                &&& final(self).nodes == old(self).nodes + 1
                &&& final(self).truncated == old(self).truncated
            },
    {
        match self.queue.pop_front() {
            None => None,
            Some(visit) => {
                if visit.depth > MAX_DEPTH || self.nodes >= MAX_NODES
                    || self.output.as_str().as_bytes().len() >= MAX_BYTES || expired {
                    self.truncated = true;
                    self.queue.clear();
                    return None;
                }
                self.nodes += 1;
                assert(self.queue@ =~= old(self).queue@.skip(1));
                Some(visit)
            },
        }
    }

    /// What was read of a node. Its line is added where it says something, and its children wait at
    /// the end; a line that no longer fits ends the walk.
    pub fn visited(
        &mut self,
        visit: Visit,
        role: &str,
        fields: &Vec<Vec<char>>,
        children: &Vec<u64>,
    )
        requires
            old(self).wf(),
            visit.depth <= MAX_DEPTH,
        ensures
            final(self).wf(),
            final(self).nodes == old(self).nodes,
            ({
                let line = node_line(visit.depth as nat, role@, rows(fields@));
                let text = if fields@.len() > 0 {
                    old(self).output@ + line
                } else {
                    old(self).output@
                };
                if byte_len(text) > MAX_BYTES {
                    &&& final(self).truncated
                    &&& final(self).queue@.len() == 0
                    &&& final(self).output == old(self).output
                } else {
                    &&& final(self).truncated == old(self).truncated
                    &&& final(self).output@ == text
                    &&& final(self).queue@ == old(self).queue@ + children_at(
                        children@,
                        (visit.depth + 1) as usize,
                    )
                }
            }),
    {
        if fields.len() > 0 {
            let line = line_of(visit.depth, role, fields);
            proof {
                lemma_byte_len_concat(self.output@, line@);
            }
            let used: usize = self.output.as_str().as_bytes().len();
            let more: usize = line.as_str().as_bytes().len();
            if more > MAX_BYTES - used {
                self.truncated = true;
                self.queue.clear();
                return;
            }
            self.output.push_str(line.as_str());
        }
        let depth: usize = visit.depth + 1;
        let ghost waiting = self.queue@;
        let ghost text = self.output@;
        for i in 0..children.len()
            invariant
                self.wf(),
                self.nodes == old(self).nodes,
                self.truncated == old(self).truncated,
                self.output@ == text,
                self.queue@ == waiting + children_at(children@.take(i as int), depth),
        {
            self.queue.push_back(Visit { node: children[i], depth });
            assert(self.queue@ =~= waiting + children_at(children@.take(i + 1), depth));
        }
        assert(children@.take(children@.len() as int) =~= children@);
    }

    pub fn finish(self) -> (r: AccessibilitySnapshot)
        ensures
            r.format_version == 1,
            r.content == self.output,
            r.truncated == self.truncated,
    {
        AccessibilitySnapshot { format_version: 1, content: self.output, truncated: self.truncated }
    }
}

// ---------------------------------------------------------------------------
// Depth first
// ---------------------------------------------------------------------------

/// The role of a field whose contents are secret.
pub const SECURE_ROLE: &'static str = "AXSecureTextField";

/// A text with single spaces between its words; where it has too many characters, the rest gives
/// way to an ellipsis.
pub open spec fn compacted(s: Seq<char>) -> Seq<char> {
    let line = join(words(s), " "@);
    if line.len() <= MAX_TEXT_CHARS {
        line
    } else {
        line.take(MAX_TEXT_CHARS as int).push('…')
    }
}

pub fn compact(value: &str) -> (r: Vec<char>)
    ensures
        r@ == compacted(value@),
{
    let chars = chars_of(value);
    let parts = split_words(chars.as_slice());
    let mut line = joined(&parts, " ");
    if line.len() > MAX_TEXT_CHARS {
        line.truncate(MAX_TEXT_CHARS);
        line.push('…');
    }
    line
}

/// `label=text`, for a text that is there and not blank.
pub open spec fn ax_field(label: Seq<char>, value: Option<Seq<char>>) -> Seq<Seq<char>> {
    match value {
        Some(text) => if trim(text).len() > 0 {
            seq![label + compacted(text)]
        } else {
            Seq::empty()
        },
        None => Seq::empty(),
    }
}

/// What a node of the macOS tree says of itself. The value of a secure field is never said.
pub open spec fn ax_fields(
    role: Seq<char>,
    title: Option<Seq<char>>,
    description: Option<Seq<char>>,
    value: Option<Seq<char>>,
) -> Seq<Seq<char>> {
    let told = if role == SECURE_ROLE@ {
        None
    } else {
        value
    };
    ax_field("title="@, title) + ax_field("description="@, description) + ax_field("value="@, told)
}

/// The line of a node of the macOS tree: its role, and its fields where there are any.
pub open spec fn ax_line(depth: nat, role: Seq<char>, fields: Seq<Seq<char>>) -> Seq<char> {
    if fields.len() == 0 {
        indent(depth) + role + seq!['\n']
    } else {
        indent(depth) + role + seq![' '] + join(fields, " "@) + seq!['\n']
    }
}

fn push_ax_field(fields: &mut Vec<Vec<char>>, label: &str, value: &Option<String>)
    ensures
        rows(final(fields)@) == rows(old(fields)@) + ax_field(label@, opt_text(*value)),
{
    let ghost before = fields@;
    if let Some(text) = value {
        let chars = chars_of(text.as_str());
        if trimmed(chars.as_slice()).len() > 0 {
            let mut field = chars_of(label);
            let mut rest = compact(text.as_str());
            field.append(&mut rest);
            assert(field@ =~= label@ + compacted(text@));
            proof {
                lemma_rows_push(before, field);
            }
            fields.push(field);
        }
    }
    assert(rows(fields@) =~= rows(before) + ax_field(label@, opt_text(*value)));
}

/// The fields of a node of the macOS tree.
pub fn ax_node(
    role: &str,
    title: &Option<String>,
    description: &Option<String>,
    value: &Option<String>,
) -> (r: Vec<Vec<char>>)
    ensures
        rows(r@) == ax_fields(role@, opt_text(*title), opt_text(*description), opt_text(*value)),
{
    let mut r: Vec<Vec<char>> = Vec::new();
    assert(rows(r@) =~= Seq::<Seq<char>>::empty());
    push_ax_field(&mut r, "title=", title);
    push_ax_field(&mut r, "description=", description);
    if !same_str(role, SECURE_ROLE) {
        push_ax_field(&mut r, "value=", value);
    }
    assert(rows(r@) =~= ax_fields(
        role@,
        opt_text(*title),
        opt_text(*description),
        opt_text(*value),
    ));
    r
}

/// A secure field's line is the same whatever it holds.
pub proof fn law_secure_values_stay_secret(
    title: Option<Seq<char>>,
    description: Option<Seq<char>>,
    a: Option<Seq<char>>,
    b: Option<Seq<char>>,
    name: Seq<char>,
    help: Seq<char>,
    x: Seq<char>,
    y: Seq<char>,
)
    ensures
        atspi_fields(true, name, help, x) == atspi_fields(true, name, help, y),
        uia_fields(true, name, help, x) == uia_fields(true, name, help, y),
        ax_fields(SECURE_ROLE@, title, description, a) == ax_fields(
            SECURE_ROLE@,
            title,
            description,
            b,
        ),
{
}

/// The bytes that a character takes.
pub open spec fn width(c: char) -> nat {
    encode_scalar(c as u32).len()
}

/// How many characters of a text fit into so many bytes.
pub open spec fn fitting(s: Seq<char>, room: int) -> nat
    decreases s.len(),
{
    if s.len() == 0 || width(s[0]) > room {
        0
    } else {
        1 + fitting(s.skip(1), room - width(s[0]))
    }
}

proof fn lemma_fitting(s: Seq<char>, room: int)
    requires
        room >= 0,
    ensures
        fitting(s, room) <= s.len(),
        byte_len(s.take(fitting(s, room) as int)) <= room,
        fitting(s, room) < s.len() ==> byte_len(s.take(fitting(s, room) as int + 1)) > room,
    decreases s.len(),
{
    let n = fitting(s, room) as int;
    if s.len() == 0 || width(s[0]) > room {
        assert(s.take(0) =~= Seq::<char>::empty());
        if s.len() > 0 {
            let one = s.take(1);
            assert(one.drop_first() =~= Seq::<char>::empty());
            assert(one[0] == s[0]);
        }
    } else {
        let rest = s.skip(1);
        let left = room - width(s[0]);
        lemma_fitting(rest, left);
        let m = fitting(rest, left) as int;
        assert(s.take(n).drop_first() =~= rest.take(m));
        assert(s.take(n)[0] == s[0]);
        if n < s.len() {
            assert(s.take(n + 1).drop_first() =~= rest.take(m + 1));
            assert(s.take(n + 1)[0] == s[0]);
        }
    }
}

/// A cut text takes all the room that whole characters can.
pub proof fn law_cut_text_fits(s: Seq<char>, room: nat)
    ensures
        fitting(s, room as int) <= s.len(),
        byte_len(s.take(fitting(s, room as int) as int)) <= room,
        fitting(s, room as int) < s.len() ==> byte_len(s.take(fitting(s, room as int) as int + 1))
            > room,
{
    lemma_fitting(s, room as int);
}

fn width_of(c: char) -> (r: usize)
    ensures
        r == width(c),
{
    let code: u32 = c as u32;
    if code <= 0x7f {
        1
    } else if code <= 0x7ff {
        2
    } else if code <= 0xffff {
        3
    } else {
        4
    }
}

/// A walk that reads a tree from node to first child.
pub struct AxWalk {
    /// The nodes that wait, the next one last.
    pub stack: Vec<Visit>,
    pub output: String,
    pub nodes: usize,
    pub truncated: bool,
}

impl AxWalk {
    /// Within its bounds.
    pub open spec fn wf(self) -> bool {
        &&& byte_len(self.output@) <= MAX_BYTES
        &&& self.nodes <= MAX_NODES
    }

    pub fn new(root: u64) -> (r: Self)
        ensures
            r.wf(),
            r.stack@ == seq![Visit { node: root, depth: 0 }],
            r.output@ == Seq::<char>::empty(),
            r.nodes == 0,
            !r.truncated,
    {
        let mut stack: Vec<Visit> = Vec::new();
        stack.push(Visit { node: root, depth: 0 });
        let output = String::new();
        assert(stack@ =~= seq![Visit { node: root, depth: 0 }]);
        assert(byte_len(output@) == 0);
        AxWalk { stack, output, nodes: 0, truncated: false }
    }

    /// Whether a limit ends the walk at a node of this depth.
    pub open spec fn over(self, depth: usize, expired: bool) -> bool {
        depth > MAX_DEPTH || self.nodes >= MAX_NODES || byte_len(self.output@) >= MAX_BYTES
            || expired
    }

    /// The next node to read. A limit that is reached first ends the walk.
    pub fn next(&mut self, expired: bool) -> (r: Option<Visit>)
        requires
            old(self).wf(),
        ensures
            final(self).wf(),
            final(self).output == old(self).output,
            if old(self).stack@.len() == 0 {
                &&& r is None
                &&& final(self).stack@.len() == 0
                &&& final(self).nodes == old(self).nodes
                &&& final(self).truncated == old(self).truncated
            } else if old(self).over(old(self).stack@.last().depth, expired) {
                &&& r is None
                &&& final(self).truncated
                &&& final(self).stack@.len() == 0
                &&& final(self).nodes == old(self).nodes
            } else {
                &&& r == Some(old(self).stack@.last())
                &&& final(self).stack@ == old(self).stack@.drop_last()
                &&& final(self).nodes == old(self).nodes + 1
                &&& final(self).truncated == old(self).truncated
            },
    {
        match self.stack.pop() {
            None => None,
            Some(visit) => {
                if visit.depth > MAX_DEPTH || self.nodes >= MAX_NODES
                    || self.output.as_str().as_bytes().len() >= MAX_BYTES || expired {
                    self.truncated = true;
                    self.stack.clear();
                    return None;
                }
                self.nodes += 1;
                Some(visit)
            },
        }
    }

    /// What was read of a node. Its line is added and its children are read next, in their order,
    /// unless the field is secure. Of a line that does not fit, as much as fits is kept, and the
    /// walk ends.
    pub fn visited(
        &mut self,
        visit: Visit,
        role: &str,
        fields: &Vec<Vec<char>>,
        children: &Vec<u64>,
    )
        requires
            old(self).wf(),
            visit.depth <= MAX_DEPTH,
        ensures
            final(self).wf(),
            final(self).nodes == old(self).nodes,
            ({
                let line = ax_line(visit.depth as nat, role@, rows(fields@));
                let room = MAX_BYTES - byte_len(old(self).output@);
                if byte_len(line) > room {
                    &&& final(self).truncated
                    &&& final(self).stack@.len() == 0
                    &&& final(self).output@ == old(self).output@ + line.take(
                        fitting(line, room) as int,
                    )
                } else {
                    &&& final(self).truncated == old(self).truncated
                    &&& final(self).output@ == old(self).output@ + line
                    &&& final(self).stack@ == if role@ == SECURE_ROLE@ {
                        old(self).stack@
                    } else {
                        old(self).stack@ + children_at(
                            children@,
                            (visit.depth + 1) as usize,
                        ).reverse()
                    }
                }
            }),
    {
        let mut line = String::new();
        push_indent(&mut line, visit.depth);
        line.push_str(role);
        if fields.len() > 0 {
            line.push(' ');
            let told = joined(fields, " ");
            let told = string_of(told.as_slice());
            line.push_str(told.as_str());
        }
        line.push('\n');
        let ghost all = ax_line(visit.depth as nat, role@, rows(fields@));
        assert(line@ =~= all);
        let used: usize = self.output.as_str().as_bytes().len();
        let more: usize = line.as_str().as_bytes().len();
        let room: usize = MAX_BYTES - used;
        if more > room {
            let chars = chars_of(line.as_str());
            let mut n: usize = 0;
            let mut left: usize = room;
            assert(chars@.skip(0) =~= chars@);
            while n < chars.len() && width_of(chars[n]) <= left
                invariant
                    n <= chars@.len(),
                    left <= room,
                    n + fitting(chars@.skip(n as int), left as int) == fitting(chars@, room as int),
                decreases chars@.len() - n,
            {
                proof {
                    let rest = chars@.skip(n as int);
                    assert(rest[0] == chars@[n as int]);
                    assert(rest.skip(1) =~= chars@.skip(n + 1));
                }
                left -= width_of(chars[n]);
                n += 1;
            }
            assert(n == fitting(chars@, room as int)) by {
                let rest = chars@.skip(n as int);
                if n < chars@.len() {
                    assert(rest[0] == chars@[n as int]);
                }
            }
            let (kept, _) = chars.as_slice().split_at(n);
            let kept = string_of(kept);
            proof {
                lemma_fitting(all, room as int);
                assert(kept@ =~= all.take(n as int));
                lemma_byte_len_concat(self.output@, kept@);
            }
            self.output.push_str(kept.as_str());
            self.truncated = true;
            self.stack.clear();
            return;
        }
        proof {
            lemma_byte_len_concat(self.output@, line@);
        }
        self.output.push_str(line.as_str());
        if same_str(role, SECURE_ROLE) {
            return;
        }
        let depth: usize = visit.depth + 1;
        let ghost waiting = self.stack@;
        let ghost text = self.output@;
        let ghost kids = children_at(children@, depth);
        let mut i: usize = children.len();
        while i > 0
            invariant
                i <= children@.len(),
                kids == children_at(children@, depth),
                self.wf(),
                self.nodes == old(self).nodes,
                self.truncated == old(self).truncated,
                self.output@ == text,
                self.stack@ =~= waiting + kids.skip(i as int).reverse(),
            decreases i,
        {
            i -= 1;
            self.stack.push(Visit { node: children[i], depth });
        }
        assert(kids.skip(0) =~= kids);
    }

    pub fn finish(self) -> (r: AccessibilitySnapshot)
        ensures
            r.format_version == 1,
            r.content == self.output,
            r.truncated == self.truncated,
    {
        AccessibilitySnapshot { format_version: 1, content: self.output, truncated: self.truncated }
    }
}

// ---------------------------------------------------------------------------
// What every line says
// ---------------------------------------------------------------------------

/// The text has something else than blanks.
pub open spec fn says_something(s: Seq<char>) -> bool {
    exists|i: int| 0 <= i < s.len() && !is_space(#[trigger] s[i])
}

proof fn lemma_says_something(s: Seq<char>)
    ensures
        says_something(s) <==> trim(s).len() > 0,
{
    let (a, b) = law_trimming_takes_the_blanks_around(s);
    if a < b {
        assert(!is_space(s[a]));
    }
}

/// A node of the Linux tree says its name, its description and its text, in this order, each where
/// it says something and does not repeat the name; the text of a password is not said.
pub proof fn law_linux_nodes_say_what_they_have(
    password: bool,
    name: Seq<char>,
    description: Seq<char>,
    text: Seq<char>,
)
    ensures
        ({
            let fields = atspi_fields(password, name, description, text);
            let named: int = if says_something(name) {
                1
            } else {
                0
            };
            let described: int = if says_something(description) && trim(description) != trim(name) {
                1
            } else {
                0
            };
            let read: int = if !password && says_something(text) && trim(text) != trim(name) {
                1
            } else {
                0
            };
            &&& fields.len() == named + described + read
            &&& named == 1 ==> fields[0] == cleaned(name)
            &&& described == 1 ==> fields[named] == cleaned(description)
            &&& read == 1 ==> fields.last() == cleaned(text)
        }),
{
    lemma_says_something(name);
    lemma_says_something(description);
    lemma_says_something(text);
}

/// A node of the Windows tree says its name, its help and its text, in this order, each where there
/// is one and it does not read like the name; the text of a password is not said.
pub proof fn law_windows_nodes_say_what_they_have(
    password: bool,
    name: Seq<char>,
    help: Seq<char>,
    text: Seq<char>,
)
    ensures
        ({
            let fields = uia_fields(password, name, help, text);
            let named: int = if cleaned(name).len() > 0 {
                1
            } else {
                0
            };
            let helped: int = if cleaned(help).len() > 0 && cleaned(help) != cleaned(name) {
                1
            } else {
                0
            };
            let read: int = if !password && cleaned(text).len() > 0 && cleaned(text) != cleaned(name) {
                1
            } else {
                0
            };
            &&& fields.len() == named + helped + read
            &&& named == 1 ==> fields[0] == cleaned(name)
            &&& helped == 1 ==> fields[named] == cleaned(help)
            &&& read == 1 ==> fields.last() == cleaned(text)
        }),
{
}

/// A node of the macOS tree says its title, its description and its value, in this order and under
/// their labels, each where it says something; the value of a secure field is not said.
pub proof fn law_macos_nodes_say_what_they_have(
    role: Seq<char>,
    title: Option<Seq<char>>,
    description: Option<Seq<char>>,
    value: Option<Seq<char>>,
)
    ensures
        ({
            let fields = ax_fields(role, title, description, value);
            let titled: int = if title is Some && says_something(title->0) {
                1
            } else {
                0
            };
            let described: int = if description is Some && says_something(description->0) {
                1
            } else {
                0
            };
            let read: int = if role != "AXSecureTextField"@ && value is Some && says_something(
                value->0,
            ) {
                1
            } else {
                0
            };
            &&& fields.len() == titled + described + read
            &&& titled == 1 ==> fields[0] == "title="@ + compacted(title->0)
            &&& described == 1 ==> fields[titled] == "description="@ + compacted(description->0)
            &&& read == 1 ==> fields.last() == "value="@ + compacted(value->0)
        }),
{
    if title is Some {
        lemma_says_something(title->0);
    }
    if description is Some {
        lemma_says_something(description->0);
    }
    if value is Some {
        lemma_says_something(value->0);
    }
}

/// A field is one line of bounded length: its text with single blanks, as far as it goes, and whole
/// where it fits; on macOS a mark says that there was more.
pub proof fn law_fields_are_short_lines(s: Seq<char>)
    ensures
        ({
            let line = join(words(s), seq![' ']);
            &&& single_spaced(line)
            &&& single_spaced(s) ==> line == s
            &&& cleaned(s).len() <= MAX_TEXT_CHARS
            &&& cleaned(s) == line.take(cleaned(s).len() as int)
            &&& line.len() <= MAX_TEXT_CHARS ==> cleaned(s) == line && compacted(s) == line
            &&& line.len() > MAX_TEXT_CHARS ==> cleaned(s).len() == MAX_TEXT_CHARS && compacted(s)
                == line.take(MAX_TEXT_CHARS as int).push('…')
        }),
{
    reveal_strlit(" ");
    assert(" "@ =~= seq![' ']);
    lemma_words_joined(s);
    if single_spaced(s) {
        lemma_single_spaced(s);
    }
    let line = join(words(s), seq![' ']);
    assert(line.take(line.len() as int) =~= line);
}

/// A node stands two blanks further in than the one above it.
pub proof fn law_lines_are_indented_by_depth(depth: nat)
    ensures
        indent(depth).len() == 2 * depth,
        forall|i: int| 0 <= i < indent(depth).len() ==> #[trigger] indent(depth)[i] == ' ',
    decreases depth,
{
    if depth > 0 {
        law_lines_are_indented_by_depth((depth - 1) as nat);
    }
}

/// The window that is read is the first active one, and there is none only where none is active.
pub proof fn law_the_first_active_window_is_read(windows: Seq<WindowState>, from: int)
    requires
        0 <= from <= windows.len(),
    ensures
        match active_from(windows, from) {
            Some(i) => from <= i < windows.len() && windows[i].active && forall|j: int|
                from <= j < i ==> !(#[trigger] windows[j]).active,
            None => forall|j: int| from <= j < windows.len() ==> !(#[trigger] windows[j]).active,
        },
    decreases windows.len() - from,
{
    if from < windows.len() && !windows[from].active {
        law_the_first_active_window_is_read(windows, from + 1);
    }
}

/// A title is shown as it is where it says something, and otherwise not at all.
pub proof fn law_blank_titles_are_not_shown(title: Option<String>)
    ensures
        title is None ==> shown_title(title) is None,
        title is Some && says_something((title->0)@) ==> shown_title(title) == Some((title->0)@),
        title is Some && !says_something((title->0)@) ==> shown_title(title) is None,
{
    if title is Some {
        lemma_says_something((title->0)@);
    }
}

/// Names are compared letter by letter and number by number, in lower case, whatever stands between.
pub proof fn law_names_are_compared_without_signs(x: Seq<char>, c: char, y: Seq<char>)
    ensures
        normal(x + seq![c] + y) == normal(x) + (if alphanumeric(c) {
            lower_case(c)
        } else {
            Seq::empty()
        }) + normal(y),
    decreases y.len(),
{
    let all = x + seq![c] + y;
    if y.len() == 0 {
        assert(all.drop_last() =~= x);
        assert(all.last() == c);
        assert(normal(y) =~= Seq::<char>::empty());
        assert(normal(all) =~= normal(x) + (if alphanumeric(c) {
            lower_case(c)
        } else {
            Seq::empty()
        }) + normal(y));
    } else {
        let front = y.drop_last();
        law_names_are_compared_without_signs(x, c, front);
        assert(all.drop_last() =~= x + seq![c] + front);
        assert(all.last() == y.last());
        assert(normal(all) =~= normal(x) + (if alphanumeric(c) {
            lower_case(c)
        } else {
            Seq::empty()
        }) + normal(y));
    }
}

/// A line says where a node stands, what it is, and what it has to say.
#[verifier::rlimit(50)]
pub proof fn law_lines_say_role_and_fields(
    depth: nat,
    role: Seq<char>,
    one: Seq<char>,
    two: Seq<char>,
)
    ensures
        node_line(depth, role, seq![one]) == indent(depth) + role + seq![':', ' '] + one + seq!['\n'],
        node_line(depth, role, seq![one, two]) == indent(depth) + role + seq![':', ' '] + one
            + seq![' ', '|', ' '] + two + seq!['\n'],
        ax_line(depth, role, Seq::empty()) == indent(depth) + role + seq!['\n'],
        ax_line(depth, role, seq![one]) == indent(depth) + role + seq![' '] + one + seq!['\n'],
        ax_line(depth, role, seq![one, two]) == indent(depth) + role + seq![' '] + one + seq![' ']
            + two + seq!['\n'],
{
    reveal_strlit(" ");
    reveal_strlit(" | ");
    assert(" "@ =~= seq![' ']);
    assert(" | "@ =~= seq![' ', '|', ' ']);
    reveal_with_fuel(join, 3);
    let pair = seq![one, two];
    assert(pair.drop_last() =~= seq![one]);
    assert(seq![one].drop_last() =~= Seq::<Seq<char>>::empty());
    assert(join(seq![one], " "@) =~= one);
    assert(join(seq![one], " | "@) =~= one);
    assert(join(pair, " "@) =~= one + seq![' '] + two);
    assert(join(pair, " | "@) =~= one + seq![' ', '|', ' '] + two);
    let start = indent(depth) + role;
    assert(start + seq![':', ' '] + (one + seq![' ', '|', ' '] + two) =~= start + seq![':', ' ']
        + one + seq![' ', '|', ' '] + two);
    assert(start + seq![' '] + (one + seq![' '] + two) =~= start + seq![' '] + one + seq![' ']
        + two);
}

/// The children of a node are read in their order, one level down.
pub proof fn law_children_are_one_level_down(children: Seq<u64>, depth: usize, i: int)
    requires
        0 <= i < children.len(),
    ensures
        children_at(children, depth).len() == children.len(),
        children_at(children, depth)[i].node == children[i],
        children_at(children, depth)[i].depth == depth,
{
}

} // verus!
