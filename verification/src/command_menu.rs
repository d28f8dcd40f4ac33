//! The menu that lists the commands while one is typed.

use crate::chars;
use crate::command::slash::{SlashCommand, SlashCommandRegistry};
use crate::geometry::Rect;
use crate::style;
use crate::style::{Color, Line, Span, SpanView, Style};
use vstd::prelude::*;

verus! {

pub const MAX_ROWS: usize = 8;

/// Whether the menu goes with an input: one slash and no white space behind it.
pub open spec fn opens(input: Seq<char>) -> bool {
    &&& input.len() > 0 && input[0] == '/'
    &&& !(input.len() > 1 && input[1] == '/')
    &&& forall|i: int| 0 <= i < input.len() ==> !chars::is_white_space(#[trigger] input[i])
}

/// What is searched for: the input without the slashes at its start.
pub open spec fn query_of(input: Seq<char>) -> Seq<char> {
    input.skip(chars::leading(input, |c: char| c == '/') as int)
}

/// The first place from `from` on at which a pattern occurs in a text.
pub open spec fn first_match(text: Seq<char>, pattern: Seq<char>, from: int) -> Option<int>
    decreases (if text.len() >= from {
        text.len() - from + 1
    } else {
        0
    }),
{
    if from < 0 || from > text.len() {
        None
    } else if chars::occurs_at(text, pattern, from) {
        Some(from)
    } else {
        first_match(text, pattern, from + 1)
    }
}

pub open spec fn name_matches(name: Seq<char>, query: Seq<char>) -> bool {
    first_match(name, query, 0) is Some
}

/// The byte at which a query first occurs in a name.
pub open spec fn rank(name: Seq<char>, query: Seq<char>) -> nat {
    match first_match(name, query, 0) {
        Some(i) => chars::byte_len(name.take(i)),
        None => 0,
    }
}

/// The place in a list of commands, ordered by rank, behind all of the first `k` that do not rank
/// below the given one.
pub open spec fn place(
    commands: Seq<SlashCommand>,
    query: Seq<char>,
    order: Seq<int>,
    rank_of_new: nat,
    k: int,
) -> int
    decreases k,
{
    if k > 0 && rank(commands[order[k - 1]].spec.name@, query) > rank_of_new {
        place(commands, query, order, rank_of_new, k - 1)
    } else {
        k
    }
}

/// The places of those of the first `count` commands whose names hold the query: those first in
/// whose names it occurs first, and otherwise in the order of the registry.
pub open spec fn ranked(commands: Seq<SlashCommand>, query: Seq<char>, count: int) -> Seq<int>
    decreases count,
{
    if count <= 0 {
        Seq::empty()
    } else {
        let order = ranked(commands, query, count - 1);
        let name = commands[count - 1].spec.name@;
        if name_matches(name, query) {
            order.insert(
                place(commands, query, order, rank(name, query), order.len() as int),
                count - 1,
            )
        } else {
            order
        }
    }
}

/// The commands that the menu lists for an input.
pub open spec fn matches(commands: Seq<SlashCommand>, input: Seq<char>) -> Seq<SlashCommand> {
    let order = ranked(commands, query_of(input), commands.len() as int);
    Seq::new(order.len(), |i: int| commands[order[i]])
}

proof fn lemma_place_bound(
    commands: Seq<SlashCommand>,
    query: Seq<char>,
    order: Seq<int>,
    rank_of_new: nat,
    k: int,
)
    requires
        0 <= k <= order.len(),
    ensures
        0 <= place(commands, query, order, rank_of_new, k) <= k,
        forall|i: int|
            place(commands, query, order, rank_of_new, k) <= i < k ==> rank(
                commands[#[trigger] order[i]].spec.name@,
                query,
            ) > rank_of_new,
        place(commands, query, order, rank_of_new, k) > 0 ==> rank(
            commands[order[place(commands, query, order, rank_of_new, k) - 1]].spec.name@,
            query,
        ) <= rank_of_new,
    decreases k,
{
    if k > 0 {
        lemma_place_bound(commands, query, order, rank_of_new, k - 1);
    }
}

/// Whether `a` is listed before `b`.
pub open spec fn before(commands: Seq<SlashCommand>, query: Seq<char>, a: int, b: int) -> bool {
    let left = rank(commands[a].spec.name@, query);
    let right = rank(commands[b].spec.name@, query);
    left < right || (left == right && a < b)
}

/// The menu lists the commands whose names hold the query, each once: those first in whose names
/// it occurs first, and otherwise in the order of the registry.
#[verifier::spinoff_prover]
#[verifier::rlimit(60)]
pub proof fn law_matches_are_ranked(commands: Seq<SlashCommand>, query: Seq<char>, count: int)
    requires
        0 <= count <= commands.len(),
    ensures
        forall|k: int|
            0 <= k < ranked(commands, query, count).len() ==> {
                let i = #[trigger] ranked(commands, query, count)[k];
                0 <= i < count && name_matches(commands[i].spec.name@, query)
            },
        forall|i: int|
            0 <= i < count && name_matches((#[trigger] commands[i]).spec.name@, query)
                ==> ranked(commands, query, count).contains(i),
        forall|j: int, k: int|
            0 <= j < k < ranked(commands, query, count).len() ==> before(
                commands,
                query,
                #[trigger] ranked(commands, query, count)[j],
                #[trigger] ranked(commands, query, count)[k],
            ),
    decreases count,
{
    if count > 0 {
        law_matches_are_ranked(commands, query, count - 1);
        let order = ranked(commands, query, count - 1);
        let name = commands[count - 1].spec.name@;
        let after = ranked(commands, query, count);
        if name_matches(name, query) {
            let new_rank = rank(name, query);
            let at = place(commands, query, order, new_rank, order.len() as int);
            lemma_place_bound(commands, query, order, new_rank, order.len() as int);
            assert(after == order.insert(at, count - 1));
            assert forall|i: int|
                0 <= i < count && name_matches(
                    (#[trigger] commands[i]).spec.name@,
                    query,
                ) implies after.contains(i) by {
                if i == count - 1 {
                    assert(after[at] == i);
                } else {
                    assert(order.contains(i));
                    let k = choose|k: int| 0 <= k < order.len() && order[k] == i;
                    if k < at {
                        assert(after[k] == i);
                    } else {
                        assert(after[k + 1] == i);
                    }
                }
            }
            assert forall|j: int, k: int| 0 <= j < k < after.len() implies before(
                commands,
                query,
                #[trigger] after[j],
                #[trigger] after[k],
            ) by {
                let old_j = if j < at {
                    j
                } else {
                    j - 1
                };
                let old_k = if k < at {
                    k
                } else {
                    k - 1
                };
                if k == at {
                    assert(after[j] == order[j]);
                    assert(j == at - 1 || before(commands, query, order[j], order[at - 1]));
                } else if j == at {
                    assert(after[k] == order[k - 1]);
                } else {
                    assert(after[j] == order[old_j]);
                    assert(after[k] == order[old_k]);
                }
            }
            assert forall|k: int| 0 <= k < after.len() implies {
                let i = #[trigger] after[k];
                0 <= i < count && name_matches(commands[i].spec.name@, query)
            } by {
                if k < at {
                    assert(after[k] == order[k]);
                } else if k > at {
                    assert(after[k] == order[k - 1]);
                }
            }
        } else {
            assert(after == order);
        }
    }
}

/// The height of the menu, with its border.
pub open spec fn height_for(len: nat, area_height: u16) -> u16 {
    let rows = if len < MAX_ROWS {
        len as int
    } else {
        MAX_ROWS as int
    };
    if rows + 2 < area_height {
        (rows + 2) as u16
    } else {
        area_height
    }
}

/// A text with spaces behind it up to a width.
pub open spec fn padded(text: Seq<char>, width: nat) -> Seq<char> {
    text + Seq::new(
        if text.len() < width {
            (width - text.len()) as nat
        } else {
            0
        },
        |i: int| ' ',
    )
}

/// The line of a command in the menu.
pub open spec fn menu_line(command: SlashCommand) -> Seq<SpanView> {
    let style = Style { fg: Some(Color::Gray), ..style::plain() };
    seq![
        SpanView { content: "/"@ + padded(command.spec.name@, 12), style },
        SpanView { content: command.spec.summary@, style },
    ]
}

/// The menu: whether it was dismissed, which command is selected, and where it was drawn.
#[derive(Debug)]
pub struct CommandMenu {
    pub dismissed: bool,
    pub selected: Option<usize>,
    pub overlay_rect: Option<Rect>,
}

/// What is drawn of the menu.
#[derive(Debug)]
pub struct MenuDrawing {
    pub height: u16,
    pub lines: Vec<Line>,
    pub selected: usize,
}

/// The selected place in a list.
pub open spec fn clamped(selected: Option<usize>, len: nat) -> Option<usize> {
    if len == 0 {
        None
    } else {
        let wanted = match selected {
            Some(selected) => selected,
            None => 0,
        };
        Some(
            if wanted < len {
                wanted
            } else {
                (len - 1) as usize
            },
        )
    }
}

/// The place after the selected one, and the first after the last.
pub open spec fn next_selected(selected: Option<usize>, len: nat) -> Option<usize> {
    if len == 0 {
        None
    } else {
        let at = match selected {
            Some(selected) => selected,
            None => 0,
        };
        Some(((at + 1) % (len as int)) as usize)
    }
}

/// The place before the selected one, and the last before the first.
pub open spec fn prev_selected(selected: Option<usize>, len: nat) -> Option<usize> {
    match clamped(selected, len) {
        Some(at) => Some(
            if at == 0 {
                (len - 1) as usize
            } else {
                (at - 1) as usize
            },
        ),
        None => None,
    }
}

impl Default for CommandMenu {
    fn default() -> (menu: CommandMenu)
        ensures
            menu == (CommandMenu { dismissed: false, selected: Some(0), overlay_rect: None }),
    {
        CommandMenu { dismissed: false, selected: Some(0), overlay_rect: None }
    }
}

impl CommandMenu {
    pub fn new() -> (menu: CommandMenu)
        ensures
            menu == (CommandMenu { dismissed: false, selected: Some(0), overlay_rect: None }),
    {
        CommandMenu { dismissed: false, selected: Some(0), overlay_rect: None }
    }

    pub open spec fn spec_is_open(self, input: Seq<char>) -> bool {
        opens(input) && !self.dismissed
    }

    pub fn is_open(&self, input: &str) -> (open: bool)
        ensures
            open == self.spec_is_open(input@),
    {
        is_open_input(input) && !self.dismissed
    }

    pub fn input_changed(&mut self)
        ensures
            *final(self) == (CommandMenu { dismissed: false, ..*old(self) }),
    {
        self.dismissed = false;
    }

    pub fn dismiss(&mut self)
        ensures
            *final(self) == (CommandMenu { dismissed: true, overlay_rect: None, ..*old(self) }),
    {
        self.dismissed = true;
        self.overlay_rect = None;
    }

    fn clamp_selected(&mut self, len: usize)
        ensures
            *final(self) == (CommandMenu {
                selected: clamped(old(self).selected, len as nat),
                ..*old(self)
            }),
    {
        if len == 0 {
            self.selected = None;
        } else {
            let wanted: usize = self.selected_or_zero();
            self.selected = Some(
                if wanted < len {
                    wanted
                } else {
                    len - 1
                },
            );
        }
    }

    fn selected_or_zero(&self) -> (selected: usize)
        ensures
            selected == match self.selected {
                Some(selected) => selected,
                None => 0,
            },
    {
        match self.selected {
            Some(selected) => selected,
            None => 0,
        }
    }

    /// The selected one of the commands that are listed.
    pub fn selected_command(&mut self, input: &str, registry: &SlashCommandRegistry) -> (command:
        Option<SlashCommand>)
        ensures
            ({
                let listed = matches(registry.commands@, input@);
                let selected = clamped(old(self).selected, listed.len());
                &&& *final(self) == (CommandMenu { selected, ..*old(self) })
                &&& command == match selected {
                    Some(at) => Some(listed[at as int]),
                    None => None,
                }
            }),
    {
        let listed = matches_for(registry, input);
        self.clamp_selected(listed.len());
        match self.selected {
            Some(at) => Some(listed[at]),
            None => None,
        }
    }

    pub fn select_next(&mut self, input: &str, registry: &SlashCommandRegistry)
        requires
            old(self).selected != Some(usize::MAX),
        ensures
            *final(self) == (CommandMenu {
                selected: next_selected(
                    old(self).selected,
                    matches(registry.commands@, input@).len(),
                ),
                ..*old(self)
            }),
    {
        let len: usize = matches_for(registry, input).len();
        if len == 0 {
            self.selected = None;
        } else {
            self.selected = Some((self.selected_or_zero() + 1) % len);
        }
    }

    pub fn select_prev(&mut self, input: &str, registry: &SlashCommandRegistry)
        ensures
            *final(self) == (CommandMenu {
                selected: prev_selected(
                    old(self).selected,
                    matches(registry.commands@, input@).len(),
                ),
                ..*old(self)
            }),
    {
        let len: usize = matches_for(registry, input).len();
        self.clamp_selected(len);
        if len > 0 {
            let at: usize = self.selected_or_zero();
            self.selected = Some(
                if at == 0 {
                    len - 1
                } else {
                    at - 1
                },
            );
        }
    }

    /// What is drawn into an area for an input. Where nothing is drawn the menu is nowhere.
    pub fn render(&mut self, area: Rect, input: &str, registry: &SlashCommandRegistry) -> (drawing:
        Option<MenuDrawing>)
        ensures
            ({
                let listed = matches(registry.commands@, input@);
                let shown = old(self).spec_is_open(input@) && !area.empty();
                &&& drawing is Some <==> shown && listed.len() > 0
                &&& *final(self) == (CommandMenu {
                    dismissed: old(self).dismissed,
                    selected: if shown {
                        clamped(old(self).selected, listed.len())
                    } else {
                        old(self).selected
                    },
                    overlay_rect: if drawing is Some {
                        old(self).overlay_rect
                    } else {
                        None
                    },
                })
                &&& drawing matches Some(drawing) ==> {
                    &&& drawing.height == height_for(listed.len(), area.height)
                    &&& Some(drawing.selected) == final(self).selected
                    &&& style::line_views(drawing.lines@) == Seq::new(
                        listed.len(),
                        |i: int| menu_line(listed[i]),
                    )
                }
            }),
    {
        if !self.is_open(input) || area.is_empty() {
            self.overlay_rect = None;
            return None;
        }
        let listed = matches_for(registry, input);
        self.clamp_selected(listed.len());
        if listed.len() == 0 {
            self.overlay_rect = None;
            return None;
        }
        let lines = menu_lines(&listed);
        Some(
            MenuDrawing {
                height: menu_height(listed.len(), area.height),
                lines,
                selected: self.selected_or_zero(),
            },
        )
    }

    /// The menu has been drawn into a rectangle.
    pub fn drawn(&mut self, rect: Option<Rect>)
        ensures
            *final(self) == (CommandMenu { overlay_rect: rect, ..*old(self) }),
    {
        self.overlay_rect = rect;
    }

    pub open spec fn covers(self, column: u16, row: u16) -> bool {
        self.overlay_rect matches Some(rect) && rect.holds(column, row)
    }

    /// Whether a cell lies in the menu.
    pub fn contains(&self, column: u16, row: u16) -> (contains: bool)
        ensures
            contains == self.covers(column, row),
    {
        match self.overlay_rect {
            Some(rect) => rect.contains(column, row),
            None => false,
        }
    }
}

fn is_open_input(input: &str) -> (open: bool)
    ensures
        open == opens(input@),
{
    let characters = chars::chars_of(input);
    if characters.len() == 0 || characters[0] != '/' {
        return false;
    }
    if characters.len() > 1 && characters[1] == '/' {
        return false;
    }
    let mut i: usize = 0;
    while i < characters.len()
        invariant
            i <= characters@.len(),
            characters@ == input@,
            forall|j: int| 0 <= j < i ==> !chars::is_white_space(#[trigger] characters@[j]),
        decreases characters@.len() - i,
    {
        if characters[i].is_whitespace() {
            assert(chars::is_white_space(input@[i as int]));
            return false;
        }
        i = i + 1;
    }
    true
}

fn query_for(input: &str) -> (query: Vec<char>)
    ensures
        query@ == query_of(input@),
{
    let characters = chars::chars_of(input);
    let ghost slash = |c: char| c == '/';
    let mut i: usize = 0;
    assert(characters@.skip(0) =~= characters@);
    while i < characters.len() && characters[i] == '/'
        invariant
            i <= characters@.len(),
            slash == (|c: char| c == '/'),
            chars::leading(characters@, slash) == i + chars::leading(
                characters@.skip(i as int),
                slash,
            ),
        decreases characters@.len() - i,
    {
        assert(characters@.skip(i as int)[0] == characters@[i as int]);
        assert(characters@.skip(i as int).drop_first() =~= characters@.skip(i + 1));
        i = i + 1;
    }
    assert(chars::leading(characters@.skip(i as int), slash) == 0) by {
        if i < characters@.len() {
            assert(characters@.skip(i as int)[0] == characters@[i as int]);
        }
    }
    let mut query: Vec<char> = Vec::new();
    let ghost rest = characters@.skip(i as int);
    let mut j: usize = i;
    while j < characters.len()
        invariant
            i <= j <= characters@.len(),
            rest == characters@.skip(i as int),
            query@ == rest.take(j - i),
        decreases characters@.len() - j,
    {
        query.push(characters[j]);
        j = j + 1;
        assert(query@ =~= rest.take(j - i));
    }
    assert(query@ =~= rest);
    query
}

/// The byte at which the query first occurs in the name.
fn match_rank(name: &str, query: &Vec<char>) -> (found: Option<usize>)
    ensures
        match found {
            Some(byte) => name_matches(name@, query@) && byte == rank(name@, query@),
            None => !name_matches(name@, query@),
        },
{
    let characters = chars::chars_of(name);
    let total: usize = chars::str_len(name);
    let mut byte: usize = 0;
    let mut i: usize = 0;
    while i < characters.len()
        invariant
            i <= characters@.len(),
            characters@ == name@,
            total == chars::byte_len(name@),
            byte == chars::byte_len(name@.take(i as int)),
            first_match(name@, query@, 0) == first_match(name@, query@, i as int),
        decreases characters@.len() - i,
    {
        if chars::matches_at(&characters, query, i) {
            return Some(byte);
        }
        proof {
            chars::lemma_byte_len_take(name@, i as int);
            chars::lemma_byte_len_take_increasing(name@, i + 1, name@.len() as int);
            assert(name@.take(name@.len() as int) =~= name@);
        }
        byte = byte + characters[i].len_utf8();
        i = i + 1;
    }
    if chars::matches_at(&characters, query, i) {
        return Some(byte);
    }
    assert(first_match(name@, query@, i + 1) is None);
    None
}

/// The commands that are listed for an input, the best matches first.
pub fn matches_for(registry: &SlashCommandRegistry, input: &str) -> (listed: Vec<SlashCommand>)
    ensures
        listed@ == matches(registry.commands@, input@),
{
    let query = query_for(input);
    let ghost commands = registry.commands@;
    let mut ranks: Vec<usize> = Vec::new();
    let mut listed: Vec<SlashCommand> = Vec::new();
    let mut i: usize = 0;
    while i < registry.commands.len()
        invariant
            i <= registry.commands@.len(),
            commands == registry.commands@,
            query@ == query_of(input@),
            ({
                let order = ranked(commands, query@, i as int);
                &&& listed@.len() == order.len()
                &&& ranks@.len() == order.len()
                &&& forall|k: int|
                    0 <= k < order.len() ==> #[trigger] listed@[k] == commands[order[k]]
                &&& forall|k: int|
                    0 <= k < order.len() ==> #[trigger] ranks@[k] == rank(
                        commands[order[k]].spec.name@,
                        query@,
                    )
            }),
        decreases registry.commands@.len() - i,
    {
        let ghost order = ranked(commands, query@, i as int);
        let command = registry.commands[i];
        if let Some(byte) = match_rank(command.spec.name, &query) {
            let mut at: usize = listed.len();
            while at > 0 && ranks[at - 1] > byte
                invariant
                    at <= listed@.len(),
                    listed@.len() == order.len(),
                    ranks@.len() == order.len(),
                    forall|k: int|
                        0 <= k < order.len() ==> #[trigger] ranks@[k] == rank(
                            commands[order[k]].spec.name@,
                            query@,
                        ),
                    place(commands, query@, order, byte as nat, order.len() as int) == place(
                        commands,
                        query@,
                        order,
                        byte as nat,
                        at as int,
                    ),
                decreases at,
            {
                at = at - 1;
            }
            listed.insert(at, command);
            ranks.insert(at, byte);
            proof {
                let after = ranked(commands, query@, i + 1);
                assert(after == order.insert(at as int, i as int));
                assert forall|k: int| 0 <= k < after.len() implies #[trigger] listed@[k]
                    == commands[after[k]] by {
                    if k < at {
                        assert(after[k] == order[k]);
                    } else if k > at {
                        assert(after[k] == order[k - 1]);
                    }
                }
                assert forall|k: int| 0 <= k < after.len() implies #[trigger] ranks@[k] == rank(
                    commands[after[k]].spec.name@,
                    query@,
                ) by {
                    if k < at {
                        assert(after[k] == order[k]);
                    } else if k > at {
                        assert(after[k] == order[k - 1]);
                    }
                }
            }
        }
        i = i + 1;
    }
    assert(listed@ =~= matches(commands, input@));
    listed
}

fn menu_height(len: usize, area_height: u16) -> (height: u16)
    ensures
        height == height_for(len as nat, area_height),
{
    let rows: u16 = if len < MAX_ROWS {
        len as u16
    } else {
        MAX_ROWS as u16
    };
    if rows + 2 < area_height {
        rows + 2
    } else {
        area_height
    }
}

/// A text with spaces behind it up to a width.
pub fn pad_text(text: &str, width: usize) -> (result: String)
    ensures
        result@ == padded(text@, width as nat),
{
    let mut result: String = text.to_owned();
    let mut len: usize = text.unicode_len();
    let ghost start = text@.len();
    while len < width
        invariant
            result@.len() == len,
            start == text@.len(),
            start <= len,
            len <= width || len == start,
            result@ == text@ + Seq::new((len - start) as nat, |i: int| ' '),
        decreases width - len,
    {
        result.push(' ');
        len = len + 1;
        assert(result@ =~= text@ + Seq::new((len - start) as nat, |i: int| ' '));
    }
    assert(result@ =~= padded(text@, width as nat));
    result
}

fn menu_lines(listed: &Vec<SlashCommand>) -> (lines: Vec<Line>)
    ensures
        style::line_views(lines@) == Seq::new(listed@.len(), |i: int| menu_line(listed@[i])),
{
    let mut lines: Vec<Line> = Vec::new();
    let mut i: usize = 0;
    while i < listed.len()
        invariant
            i <= listed@.len(),
            lines@.len() == i,
            forall|j: int| 0 <= j < i ==> (#[trigger] lines@[j])@ == menu_line(listed@[j]),
        decreases listed@.len() - i,
    {
        let command = listed[i];
        let mut name: String = "/".to_owned();
        name.append(pad_text(command.spec.name, 12).as_str());
        let mut spans: Vec<Span> = Vec::new();
        spans.push(Span::styled(name, Style::default().fg(Color::Gray)));
        spans.push(
            Span::styled(command.spec.summary.to_owned(), Style::default().fg(Color::Gray)),
        );
        let line = Line { spans };
        assert(line@ =~= menu_line(command));
        lines.push(line);
        i = i + 1;
    }
    assert(style::line_views(lines@) =~= Seq::new(
        listed@.len(),
        |i: int| menu_line(listed@[i]),
    ));
    lines
}

/// To select the next command and then the previous one comes back to a command that is listed.
pub proof fn law_next_then_previous(selected: usize, len: nat)
    requires
        selected < len,
        len <= usize::MAX,
    ensures
        prev_selected(next_selected(Some(selected), len), len) == Some(selected),
{
    if selected + 1 == len {
        assert((selected + 1) % (len as int) == 0) by (nonlinear_arith)
            requires
                selected + 1 == len,
                len > 0,
        ;
    } else {
        assert((selected + 1) % (len as int) == selected + 1) by (nonlinear_arith)
            requires
                selected + 1 < len,
                selected >= 0,
        ;
    }
}

proof fn lemma_first_match(text: Seq<char>, pattern: Seq<char>, from: int)
    requires
        0 <= from <= text.len() + 1,
    ensures
        match first_match(text, pattern, from) {
            Some(i) => from <= i && chars::occurs_at(text, pattern, i) && forall|j: int|
                from <= j < i ==> !(#[trigger] chars::occurs_at(text, pattern, j)),
            None => forall|j: int|
                from <= j <= text.len() ==> !(#[trigger] chars::occurs_at(text, pattern, j)),
        },
    decreases text.len() + 1 - from,
{
    if from <= text.len() && !chars::occurs_at(text, pattern, from) {
        lemma_first_match(text, pattern, from + 1);
    }
}

/// A name matches a query just where the query stands in it somewhere, and ranks by what stands
/// before the first place at which it does.
pub proof fn law_names_match_where_the_query_occurs(
    before: Seq<char>,
    query: Seq<char>,
    after: Seq<char>,
)
    ensures
        name_matches(before + query + after, query),
        (forall|j: int|
            0 <= j < before.len() ==> !(#[trigger] chars::occurs_at(
                before + query + after,
                query,
                j,
            ))) ==> rank(before + query + after, query) == chars::byte_len(before),
{
    let name = before + query + after;
    let at = before.len() as int;
    assert(name.subrange(at, at + query.len()) =~= query);
    assert(chars::occurs_at(name, query, at));
    lemma_first_match(name, query, 0);
    assert(name.take(at) =~= before);
}

/// A name in which a query stands nowhere does not match it.
pub proof fn law_other_names_do_not_match(name: Seq<char>, query: Seq<char>)
    requires
        name_matches(name, query),
    ensures
        exists|before: Seq<char>, after: Seq<char>| name == #[trigger] (before + query + after),
{
    lemma_first_match(name, query, 0);
    let at = first_match(name, query, 0)->Some_0;
    let before = name.take(at);
    let after = name.skip(at + query.len());
    assert(name =~= before + query + after) by {
        assert(name.subrange(at, at + query.len()) =~= query);
    }
}

/// The menu goes with a slash and what is typed of a name behind it, which is then what is searched
/// for; with white space in it or a second slash in front of it it is none.
pub proof fn law_menu_opens_behind_a_slash(query: Seq<char>, at: int)
    requires
        query.len() == 0 || query[0] != '/',
    ensures
        query_of(seq!['/'] + query) == query,
        opens(seq!['/'] + query) <==> forall|i: int|
            0 <= i < query.len() ==> !chars::is_white_space(#[trigger] query[i]),
        !opens(seq!['/', '/'] + query),
        !opens(query),
{
    let slashes = |c: char| c == '/';
    let input = seq!['/'] + query;
    assert(input.drop_first() =~= query);
    reveal_with_fuel(chars::leading, 2);
    assert(chars::leading(input, slashes) == 1);
    assert(input.skip(1) =~= query);
    assert(!chars::is_white_space('/'));
    if forall|i: int| 0 <= i < query.len() ==> !chars::is_white_space(#[trigger] query[i]) {
        assert forall|i: int| 0 <= i < input.len() implies !chars::is_white_space(
            #[trigger] input[i],
        ) by {
            if i > 0 {
                assert(input[i] == query[i - 1]);
            }
        }
    } else {
        let i = choose|i: int| 0 <= i < query.len() && chars::is_white_space(#[trigger] query[i]);
        assert(input[i + 1] == query[i]);
    }
    assert((seq!['/', '/'] + query)[1] == '/');
}

/// The selection stays on a command that is listed: next goes down by one and from the last to the
/// first, previous goes up by one and from the first to the last.
pub proof fn law_selection_goes_round(selected: usize, len: nat)
    requires
        selected < len,
        len <= usize::MAX,
    ensures
        clamped(Some(selected), len) == Some(selected),
        clamped(None, len) == Some(0usize),
        selected + 1 < len ==> next_selected(Some(selected), len) == Some((selected + 1) as usize),
        selected + 1 == len ==> next_selected(Some(selected), len) == Some(0usize),
        selected > 0 ==> prev_selected(Some(selected), len) == Some((selected - 1) as usize),
        selected == 0 ==> prev_selected(Some(selected), len) == Some((len - 1) as usize),
{
    if selected + 1 < len {
        vstd::arithmetic::div_mod::lemma_small_mod((selected + 1) as nat, len);
    } else {
        vstd::arithmetic::div_mod::lemma_mod_self_0(len as int);
    }
}

/// A selection behind the end of the list is moved to its last command, and there is none where
/// nothing is listed.
pub proof fn law_selection_moves_into_the_list(selected: usize, len: nat)
    requires
        len <= usize::MAX,
    ensures
        len > 0 && selected >= len ==> clamped(Some(selected), len) == Some((len - 1) as usize),
        len == 0 ==> clamped(Some(selected), len) is None && next_selected(Some(selected), len)
            is None && prev_selected(Some(selected), len) is None,
{
}

/// The menu has a row for each command and two for its border, up to eight commands and to the height
/// of the area.
pub proof fn law_menu_has_a_row_for_each_command(len: nat, area_height: u16)
    ensures
        len <= 8 && len + 2 <= area_height ==> height_for(len, area_height) == len + 2,
        len > 8 && area_height >= 10 ==> height_for(len, area_height) == 10,
        height_for(len, area_height) <= area_height,
        height_for(len, area_height) < area_height ==> height_for(len, area_height) >= 2,
{
}

/// A line of the menu reads as a slash and the name of the command, filled up to twelve columns, and
/// what the command does.
pub proof fn law_menu_line_reads_name_and_summary(command: SlashCommand)
    ensures
        exists|gap: Seq<char>|
            {
                &&& style::plain_text(menu_line(command)) == #[trigger] ("/"@ + command.spec.name@
                    + gap + command.spec.summary@)
                &&& forall|i: int| 0 <= i < gap.len() ==> #[trigger] gap[i] == ' '
                &&& command.spec.name@.len() + gap.len() == if command.spec.name@.len() < 12 {
                    12
                } else {
                    command.spec.name@.len()
                }
            },
{
    let name = command.spec.name@;
    let gap = Seq::new(
        if name.len() < 12 {
            (12 - name.len()) as nat
        } else {
            0
        },
        |i: int| ' ',
    );
    reveal_with_fuel(style::spans_text, 3);
    assert(padded(name, 12) =~= name + gap);
    assert(style::plain_text(menu_line(command)) =~= "/"@ + name + gap + command.spec.summary@);
}

} // verus!
