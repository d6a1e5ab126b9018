//! Tasks, their status, and the ways a task is written out as text.

use vstd::prelude::*;
use crate::date::Date;
use crate::paint::{painted, yellow, purple, green, dimmed, yellow_code, purple_code, green_code, dimmed_code};
use crate::text::{push_str, right_aligned, right_aligned_string};
use crate::commands::LinkFormat;
use crate::printer::Printer;

verus! {

/// Where a task stands.
#[derive(Clone, Copy, Debug, PartialEq, Eq, Structural)]
pub enum Status {
    Todo,
    InProgress,
    Done,
    Archived,
}

/// A task of the list.
#[derive(Debug)]
pub struct TaskItem {
    pub id: usize,
    pub title: String,
    pub status: Status,
    pub active_date: Option<Date>,
    pub link: Option<String>,
    pub star: Option<bool>,
}

/// A task as a mathematical value: the texts of its title and link in place of the
/// strings.
pub struct TaskView {
    pub id: nat,
    pub title: Seq<char>,
    pub status: Status,
    pub active_date: Option<Date>,
    pub link: Option<Seq<char>>,
    pub star: Option<bool>,
}

/// The link's text, if the task has one.
pub open spec fn link_view(link: Option<String>) -> Option<Seq<char>> {
    match link {
        Some(l) => Some(l@),
        None => None,
    }
}

impl View for TaskItem {
    type V = TaskView;

    open spec fn view(&self) -> TaskView {
        TaskView {
            id: self.id as nat,
            title: self.title@,
            status: self.status,
            active_date: self.active_date,
            link: link_view(self.link),
            star: self.star,
        }
    }
}

/// The views of the tasks, in order.
pub open spec fn views(s: Seq<TaskItem>) -> Seq<TaskView> {
    s.map_values(|t: TaskItem| t@)
}

impl TaskView {
    /// The task is starred: its star is set to `true`.
    pub open spec fn is_starred(self) -> bool {
        self.star == Some(true)
    }
}

pub fn clone_link(link: &Option<String>) -> (r: Option<String>)
    ensures
        r == *link,
{
    match link {
        Some(l) => Some(l.clone()),
        None => None,
    }
}

impl TaskItem {
    /// A task with the given fields.
    pub fn new(
        id: usize,
        title: String,
        status: Status,
        active_date: Option<Date>,
        link: Option<String>,
        star: Option<bool>,
    ) -> (r: TaskItem)
        ensures
            r == (TaskItem { id, title, status, active_date, link, star }),
    {
        TaskItem { id, title, status, active_date, link, star }
    }

    /// The task is starred: its star is set to `true`.
    pub open spec fn is_starred(self) -> bool {
        self.star == Some(true)
    }

    /// The text copied for the task: its title, and its link after a space.
    pub fn get_copy_text(&self) -> (r: String)
        ensures
            r@ == adjacent_text(self@),
    {
        adjacent_string(self)
    }

    /// The task as it shows itself: its title.
    pub fn to_string(&self) -> (r: String)
        ensures
            r@ == self.title@,
    {
        self.title.clone()
    }
}

impl Clone for TaskItem {
    fn clone(&self) -> (r: TaskItem)
        ensures
            r == *self,
        r@ == self@,
    {
        TaskItem {
            id: self.id,
            title: self.title.clone(),
            status: self.status,
            active_date: self.active_date,
            link: clone_link(&self.link),
            star: self.star,
        }
    }
}

pub open spec fn star_marker() -> Seq<char> {
    seq!['\u{2b50}', '\u{fe0f}', ' ']
}

pub fn star_marker_text() -> (r: &'static str)
    ensures
        r@ == star_marker(),
{
    let r = "\u{2b50}\u{fe0f} ";
    proof {
        reveal_strlit("\u{2b50}\u{fe0f} ");
    }
    r
}


/// The marker in front of a task in the task file: `- [ ] `, `- [~] `, `- [x] ` or `- [A] `.
pub open spec fn status_marker(s: Status) -> Seq<char> {
    match s {
        Status::Todo => seq!['-', ' ', '[', ' ', ']', ' '],
        Status::InProgress => seq!['-', ' ', '[', '~', ']', ' '],
        Status::Done => seq!['-', ' ', '[', 'x', ']', ' '],
        Status::Archived => seq!['-', ' ', '[', 'A', ']', ' '],
    }
}

/// The title, as a Markdown link to the task's link if it has one: `[title](link)`.
pub open spec fn markdown_text(t: TaskView) -> Seq<char> {
    match t.link {
        Some(l) => seq!['['] + t.title + seq![']', '('] + l + seq![')'],
        None => t.title,
    }
}

/// The title, followed by a space and the link if there is one.
pub open spec fn adjacent_text(t: TaskView) -> Seq<char> {
    match t.link {
        Some(l) => t.title + seq![' '] + l,
        None => t.title,
    }
}

/// The title, followed by a line break and the link if there is one.
pub open spec fn newline_text(t: TaskView) -> Seq<char> {
    match t.link {
        Some(l) => t.title + seq!['\n'] + l,
        None => t.title,
    }
}

/// The title as an HTML link, `<a href="link">title</a>`, if the task has a link.
pub open spec fn rich_text(t: TaskView) -> Seq<char> {
    match t.link {
        Some(l) => seq!['<', 'a', ' ', 'h', 'r', 'e', 'f', '=', '"'] + l + seq!['"', '>'] + t.title
            + seq!['<', '/', 'a', '>'],
        None => t.title,
    }
}

/// A task as a line of the task file: its status marker, `⭐️ ` if it has a star,
/// and its title as a Markdown link.
pub open spec fn fini_line(t: TaskView) -> Seq<char> {
    status_marker(t.status) + (if t.star is Some {
        star_marker()
    } else {
        Seq::empty()
    }) + markdown_text(t)
}

/// `text` as an OSC 8 terminal hyperlink to `url`.
pub open spec fn hyperlink(url: Seq<char>, text: Seq<char>) -> Seq<char> {
    seq!['\u{1b}', ']', '8', ';', ';'] + url + seq!['\u{1b}', '\\'] + text + seq![
        '\u{1b}',
        ']',
        '8',
        ';',
        ';',
        '\u{1b}',
        '\\',
    ]
}

pub open spec fn link_label() -> Seq<char> {
    seq!['[', 'l', 'i', 'n', 'k', ']']
}

/// `out` is `prefix` followed by a painted `text`.
pub open spec fn then_painted(out: Seq<char>, prefix: Seq<char>, code: Seq<char>, text: Seq<char>) -> bool {
    &&& prefix.len() <= out.len()
    &&& out.subrange(0, prefix.len() as int) == prefix
    &&& painted(out.subrange(prefix.len() as int, out.len() as int), code, text)
}

/// `out` is the title, and, if there is a link, a space and the dimmed hyperlink
/// `[link]` to it.
pub open spec fn shows_hyperlinked(t: TaskView, out: Seq<char>) -> bool {
    match t.link {
        Some(l) => then_painted(out, t.title + seq![' '], dimmed_code(), hyperlink(l, link_label())),
        None => out == t.title,
    }
}

/// `out` is the title, and, if there is a link, a space and the dimmed link.
pub open spec fn shows_adjacent_color(t: TaskView, out: Seq<char>) -> bool {
    match t.link {
        Some(l) => then_painted(out, t.title + seq![' '], dimmed_code(), l),
        None => out == t.title,
    }
}

/// Appends the characters of a literal.
fn push_lit(s: &mut String, lit: &str)
    ensures
        final(s)@ == old(s)@ + lit@,
{
    push_str(s, lit);
}

/// The title as a Markdown link (`TaskItemCopyableMarkdown`).
pub fn markdown_string(t: &TaskItem) -> (r: String)
    ensures
        r@ == markdown_text(t@),
{
    match &t.link {
        Some(l) => {
            let mut r = String::new();
            proof {
                reveal_strlit("[");
                reveal_strlit("](");
                reveal_strlit(")");
            }
            push_lit(&mut r, "[");
            push_str(&mut r, t.title.as_str());
            push_lit(&mut r, "](");
            push_str(&mut r, l.as_str());
            push_lit(&mut r, ")");
            r
        },
        None => t.title.clone(),
    }
}

/// The title and the link after it (`TaskItemCopyable`).
pub fn adjacent_string(t: &TaskItem) -> (r: String)
    ensures
        r@ == adjacent_text(t@),
{
    let mut r = t.title.clone();
    if let Some(l) = &t.link {
        proof {
            reveal_strlit(" ");
        }
        push_lit(&mut r, " ");
        push_str(&mut r, l.as_str());
    }
    r
}

/// The title and the link on the next line.
pub fn newline_string(t: &TaskItem) -> (r: String)
    ensures
        r@ == newline_text(t@),
{
    let mut r = t.title.clone();
    if let Some(l) = &t.link {
        proof {
            reveal_strlit("\n");
        }
        push_lit(&mut r, "\n");
        push_str(&mut r, l.as_str());
    }
    r
}

/// The title as an HTML link.
pub fn rich_string(t: &TaskItem) -> (r: String)
    ensures
        r@ == rich_text(t@),
{
    match &t.link {
        Some(l) => {
            let mut r = String::new();
            proof {
                reveal_strlit("<a href=\"");
                reveal_strlit("\">");
                reveal_strlit("</a>");
            }
            push_lit(&mut r, "<a href=\"");
            push_str(&mut r, l.as_str());
            push_lit(&mut r, "\">");
            push_str(&mut r, t.title.as_str());
            push_lit(&mut r, "</a>");
            r
        },
        None => t.title.clone(),
    }
}

/// The task as a line of the task file (`TaskItemFiniMarkdown`).
pub fn fini_string(t: &TaskItem) -> (r: String)
    ensures
        r@ == fini_line(t@),
{
    let mut r = String::new();
    proof {
        reveal_strlit("- [ ] ");
        reveal_strlit("- [~] ");
        reveal_strlit("- [x] ");
        reveal_strlit("- [A] ");
    }
    match t.status {
        Status::Todo => push_lit(&mut r, "- [ ] "),
        Status::InProgress => push_lit(&mut r, "- [~] "),
        Status::Done => push_lit(&mut r, "- [x] "),
        Status::Archived => push_lit(&mut r, "- [A] "),
    }
    if t.star.is_some() {
        push_str(&mut r, star_marker_text());
    }
    let body = markdown_string(t);
    push_str(&mut r, body.as_str());
    r
}

/// `display_text` as an OSC 8 hyperlink to `url`.
pub fn format_hyperlink(url: &str, display_text: &str) -> (r: String)
    ensures
        r@ == hyperlink(url@, display_text@),
{
    let mut r = String::new();
    proof {
        reveal_strlit("\x1b]8;;");
        reveal_strlit("\x1b\\");
        reveal_strlit("\x1b]8;;\x1b\\");
    }
    push_lit(&mut r, "\x1b]8;;");
    push_str(&mut r, url);
    push_lit(&mut r, "\x1b\\");
    push_str(&mut r, display_text);
    push_lit(&mut r, "\x1b]8;;\x1b\\");
    r
}

/// Appends `painted` after `prefix` and states the result.
proof fn lemma_then_painted(prefix: Seq<char>, p: Seq<char>, code: Seq<char>, text: Seq<char>)
    requires
        painted(p, code, text),
    ensures
        then_painted(prefix + p, prefix, code, text),
{
    assert((prefix + p).subrange(0, prefix.len() as int) =~= prefix);
    assert((prefix + p).subrange(prefix.len() as int, (prefix + p).len() as int) =~= p);
}

/// The title and the dimmed hyperlink `[link]` (`TaskItemHyperlinked`).
pub fn hyperlinked_string(t: &TaskItem) -> (r: String)
    ensures
        shows_hyperlinked(t@, r@),
{
    let mut r = t.title.clone();
    if let Some(l) = &t.link {
        proof {
            reveal_strlit(" ");
            reveal_strlit("[link]");
        }
        push_lit(&mut r, " ");
        let label = "[link]";
        assert(label@ =~= link_label());
        assert(r@ =~= t.title@ + seq![' ']);
        let h = format_hyperlink(l.as_str(), label);
        let p = dimmed(h.as_str());
        let ghost prefix = r@;
        push_str(&mut r, p.as_str());
        proof {
            lemma_then_painted(prefix, p@, dimmed_code(), h@);
        }
    }
    r
}

/// The title and the dimmed link.
pub fn adjacent_color_string(t: &TaskItem) -> (r: String)
    ensures
        shows_adjacent_color(t@, r@),
{
    let mut r = t.title.clone();
    if let Some(l) = &t.link {
        proof {
            reveal_strlit(" ");
        }
        push_lit(&mut r, " ");
        assert(r@ =~= t.title@ + seq![' ']);
        let p = dimmed(l.as_str());
        let ghost prefix = r@;
        push_str(&mut r, p.as_str());
        proof {
            lemma_then_painted(prefix, p@, dimmed_code(), l@);
        }
    }
    r
}


/// The symbol that shows a status.
pub open spec fn status_symbol(s: Status) -> Seq<char> {
    match s {
        Status::Todo => seq!['\u{2610}'],
        Status::InProgress => seq!['\u{2026}'],
        Status::Done => seq!['\u{2714}'],
        Status::Archived => seq!['-'],
    }
}

/// The colour that a status symbol is shown in.
pub open spec fn status_code(s: Status) -> Seq<char> {
    match s {
        Status::Todo => purple_code(),
        Status::InProgress => yellow_code(),
        Status::Done => green_code(),
        Status::Archived => green_code(),
    }
}

/// `out` is the status symbol in its colour (`Status`'s `Display`).
pub fn status_string(s: Status) -> (r: String)
    ensures
        painted(r@, status_code(s), status_symbol(s)),
{
    proof {
        reveal_strlit("\u{2610}");
        reveal_strlit("\u{2026}");
        reveal_strlit("\u{2714}");
        reveal_strlit("-");
    }
    let todo = "\u{2610}";
    let doing = "\u{2026}";
    let done = "\u{2714}";
    let archived = "-";
    assert(todo@ =~= status_symbol(Status::Todo));
    assert(doing@ =~= status_symbol(Status::InProgress));
    assert(done@ =~= status_symbol(Status::Done));
    assert(archived@ =~= status_symbol(Status::Archived));
    match s {
        Status::Todo => purple(todo),
        Status::InProgress => yellow(doing),
        Status::Done => green(done),
        Status::Archived => green(archived),
    }
}

/// `out` is the text of a task for a link format: what `get_task_link_for_format`
/// writes.
pub open spec fn shows_link(t: TaskView, format: LinkFormat, out: Seq<char>) -> bool {
    match format {
        LinkFormat::NoLink => out == t.title,
        LinkFormat::Adjacent => out == adjacent_text(t),
        LinkFormat::AdjacentColor => shows_adjacent_color(t, out),
        LinkFormat::Hyperlink => shows_hyperlinked(t, out),
        LinkFormat::Markdown => out == markdown_text(t),
        LinkFormat::Newline => out == newline_text(t),
        LinkFormat::RichText => out == rich_text(t),
    }
}

/// `out` is what is shown before a task for its star: a yellow `★` and a space
/// for a starred task, two spaces for any other.
pub open spec fn shows_star(t: TaskView, out: Seq<char>) -> bool {
    if t.is_starred() {
        out.len() >= 1 && out.last() == ' ' && painted(out.drop_last(), yellow_code(), seq!['\u{2605}'])
    } else {
        out == seq![' ', ' ']
    }
}

/// The pieces of a task shown with its status: star, status symbol, two spaces, and
/// the task's text in the link format.
pub open spec fn status_parts(
    t: TaskView,
    format: LinkFormat,
    star: Seq<char>,
    status: Seq<char>,
    text: Seq<char>,
    out: Seq<char>,
) -> bool {
    &&& shows_star(t, star)
    &&& painted(status, status_code(t.status), status_symbol(t.status))
    &&& shows_link(t, format, text)
    &&& out == star + status + seq![' ', ' '] + text
}

/// `out` is a task shown with its status (`TaskItemWithStatus`): an archived task by
/// its title alone, any other by its star, its status symbol and its text.
pub open spec fn shows_with_status(t: TaskView, format: LinkFormat, out: Seq<char>) -> bool {
    if t.status == Status::Archived {
        out == t.title
    } else {
        exists|star: Seq<char>, status: Seq<char>, text: Seq<char>|
            #[trigger] status_parts(t, format, star, status, text, out)
    }
}

/// `out` is a task shown with its position in the list (`TaskItemWithIndex`): the
/// number right-aligned to two places, a dot, and the task with its status.
pub open spec fn shows_with_index(t: TaskView, index: nat, format: LinkFormat, out: Seq<char>) -> bool {
    let prefix = right_aligned(index, 2) + seq!['.'];
    &&& prefix.len() <= out.len()
    &&& out.subrange(0, prefix.len() as int) == prefix
    &&& shows_with_status(t, format, out.subrange(prefix.len() as int, out.len() as int))
}

/// The task's text for a link format.
pub fn get_task_link_for_format(t: &TaskItem, format: LinkFormat) -> (r: String)
    ensures
        shows_link(t@, format, r@),
{
    match format {
        LinkFormat::NoLink => t.title.clone(),
        LinkFormat::Adjacent => adjacent_string(t),
        LinkFormat::AdjacentColor => adjacent_color_string(t),
        LinkFormat::Hyperlink => hyperlinked_string(t),
        LinkFormat::Markdown => markdown_string(t),
        LinkFormat::Newline => newline_string(t),
        LinkFormat::RichText => rich_string(t),
    }
}

/// A task shown with its star, its status symbol and its text in the link format,
/// whatever its status.
pub(crate) fn status_line_string(t: &TaskItem, format: LinkFormat) -> (r: String)
    ensures
        exists|star: Seq<char>, status: Seq<char>, text: Seq<char>|
            #[trigger] status_parts(t@, format, star, status, text, r@),
{
    let mut r = String::new();
    let ghost star;
    if t.star == Some(true) {
        proof {
            reveal_strlit("\u{2605}");
            reveal_strlit(" ");
        }
        let black_star = "\u{2605}";
        assert(black_star@ =~= seq!['\u{2605}']);
        let y = yellow(black_star);
        push_str(&mut r, y.as_str());
        push_lit(&mut r, " ");
        proof {
            assert(r@.drop_last() =~= y@);
            star = r@;
        }
    } else {
        proof {
            reveal_strlit("  ");
        }
        push_lit(&mut r, "  ");
        proof {
            assert(r@ =~= seq![' ', ' ']);
            star = r@;
        }
    }
    let st = status_string(t.status);
    push_str(&mut r, st.as_str());
    proof {
        reveal_strlit("  ");
    }
    push_lit(&mut r, "  ");
    let text = get_task_link_for_format(t, format);
    push_str(&mut r, text.as_str());
    proof {
        assert(r@ =~= star + st@ + seq![' ', ' '] + text@);
        assert(status_parts(t@, format, star, st@, text@, r@));
    }
    r
}

/// A task with its star and status symbol (`TaskItemWithStatus`).
pub fn with_status_string(t: &TaskItem, format: LinkFormat) -> (r: String)
    ensures
        shows_with_status(t@, format, r@),
{
    match t.status {
        Status::Archived => t.title.clone(),
        _ => status_line_string(t, format),
    }
}

/// A task with its position in the list and its status (`TaskItemWithIndex`).
pub fn with_index_string(t: &TaskItem, index: usize, format: LinkFormat) -> (r: String)
    ensures
        shows_with_index(t@, index as nat, format, r@),
{
    let mut r = right_aligned_string(index, 2);
    proof {
        reveal_strlit(".");
    }
    push_lit(&mut r, ".");
    let ghost prefix = r@;
    assert(prefix =~= right_aligned(index as nat, 2) + seq!['.']);
    let rest = with_status_string(t, format);
    push_str(&mut r, rest.as_str());
    assert(r@.subrange(0, prefix.len() as int) =~= prefix);
    assert(r@.subrange(prefix.len() as int, r@.len() as int) =~= rest@);
    r
}

/// `out` is a task as the list of a single store shows it: the number right-aligned
/// to two places, a dot, the star, the status symbol, two spaces, the title and the
/// link dimmed after it (whatever the status).
pub open spec fn shows_indexed_line(t: TaskView, index: nat, out: Seq<char>) -> bool {
    let prefix = right_aligned(index, 2) + seq!['.'];
    &&& prefix.len() <= out.len()
    &&& out.subrange(0, prefix.len() as int) == prefix
    &&& exists|star: Seq<char>, status: Seq<char>, text: Seq<char>|
        #[trigger] status_parts(t, LinkFormat::AdjacentColor, star, status, text, out.subrange(prefix.len() as int, out.len() as int))
}

impl TaskItem {
    /// Prints the task as a line of the list, after its number.
    pub fn print_with_index<W: Printer>(&self, index: usize, printer: &mut W)
        ensures
            exists|line: Seq<char>| #[trigger] shows_indexed_line(self@, index as nat, line)
                && final(printer).printed() == old(printer).printed() + line + seq!['\n'],
    {
        let mut r = right_aligned_string(index, 2);
        proof {
            reveal_strlit(".");
        }
        push_lit(&mut r, ".");
        let ghost prefix = r@;
        assert(prefix =~= right_aligned(index as nat, 2) + seq!['.']);
        let rest = status_line_string(self, LinkFormat::AdjacentColor);
        push_str(&mut r, rest.as_str());
        assert(r@.subrange(0, prefix.len() as int) =~= prefix);
        assert(r@.subrange(prefix.len() as int, r@.len() as int) =~= rest@);
        assert(shows_indexed_line(self@, index as nat, r@));
        printer.print(r.as_str());
    }
}

/// A task with its position in the list and its status, for showing.
pub struct TaskItemWithIndex<'a>(pub &'a TaskItem, pub usize, pub LinkFormat);

impl<'a> TaskItemWithIndex<'a> {
    /// The text shown: see `with_index_string`.
    pub fn to_string(&self) -> (r: String)
        ensures
            shows_with_index(self.0@, self.1 as nat, self.2, r@),
    {
        with_index_string(self.0, self.1, self.2)
    }
}

/// A task with its star and status symbol, for showing.
pub struct TaskItemWithStatus<'a>(pub &'a TaskItem, pub LinkFormat);

impl<'a> TaskItemWithStatus<'a> {
    /// The text shown: see `with_status_string`.
    pub fn to_string(&self) -> (r: String)
        ensures
            shows_with_status(self.0@, self.1, r@),
    {
        with_status_string(self.0, self.1)
    }
}

/// A task with its link after the title, for copying.
pub struct TaskItemCopyable<'a>(pub &'a TaskItem);

impl<'a> TaskItemCopyable<'a> {
    /// The title, then a space and the link if there is one.
    pub fn to_string(&self) -> (r: String)
        ensures
            r@ == adjacent_text(self.0@),
    {
        adjacent_string(self.0)
    }
}

/// A task as a Markdown link, for copying.
pub struct TaskItemCopyableMarkdown<'a>(pub &'a TaskItem);

impl<'a> TaskItemCopyableMarkdown<'a> {
    /// `[title](link)` if there is a link, else the title.
    pub fn to_string(&self) -> (r: String)
        ensures
            r@ == markdown_text(self.0@),
    {
        markdown_string(self.0)
    }
}

/// A task with its link as a terminal hyperlink.
pub struct TaskItemHyperlinked<'a>(pub &'a TaskItem);

impl<'a> TaskItemHyperlinked<'a> {
    /// The title, then the link as a dimmed terminal hyperlink if there is one.
    pub fn to_string(&self) -> (r: String)
        ensures
            shows_hyperlinked(self.0@, r@),
    {
        hyperlinked_string(self.0)
    }
}

/// A task as a line of the task file, without its date.
pub struct TaskItemFiniMarkdown<'a>(pub &'a TaskItem);

impl<'a> TaskItemFiniMarkdown<'a> {
    /// The checkbox of its status, the star, and the Markdown text.
    pub fn to_string(&self) -> (r: String)
        ensures
            r@ == fini_line(self.0@),
    {
        fini_string(self.0)
    }
}

} // verus!
