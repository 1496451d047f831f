//! The viewer's state: two ranked tables, a selection in each, the focus and
//! the view mode, and what each input does to them.

use crate::stats::{ContributorInfo, LanguageInfo, Stats, Tally};
use crate::text::{decimal, decimal_string, format_integer, grouped};
use vstd::arithmetic::div_mod::lemma_fundamental_div_mod_converse;
use vstd::prelude::*;
use vstd::seq_lib::seq_to_set_is_finite;
use vstd::set_lib::{lemma_int_range, lemma_subset_equality, set_int_range};

verus! {

/// The narrowest display, in columns, on which the tables are shown.
pub const MIN_WIDTH: u16 = 80;

/// The lowest display, in rows, on which the tables are shown.
pub const MIN_HEIGHT: u16 = 24;

/// The longest wait for an input before the display is drawn again, in
/// milliseconds.
pub const TICK_MILLIS: u64 = 250;

/// Whether row `i` stands before row `j` in a ranking by `lines`: more lines
/// first, and of two rows with the same count the one that came first.
pub open spec fn outranks(lines: Seq<usize>, i: int, j: int) -> bool {
    lines[i] > lines[j] || (lines[i] == lines[j] && i < j)
}

/// `order` lists the indices of `lines`, each once, so that every index
/// outranks those after it.
pub open spec fn is_ranking(lines: Seq<usize>, order: Seq<usize>) -> bool {
    &&& order.len() == lines.len()
    &&& forall|k: int| 0 <= k < order.len() ==> (#[trigger] order[k]) < lines.len()
    &&& forall|a: int, b: int|
        0 <= a < b < order.len() ==> outranks(
            lines,
            #[trigger] order[a] as int,
            #[trigger] order[b] as int,
        )
}

/// A ranking lists every row once, and no row has more lines than one
/// before it.
pub proof fn lemma_ranking_lists_each_row_once(lines: Seq<usize>, order: Seq<usize>)
    requires
        is_ranking(lines, order),
    ensures
        order.no_duplicates(),
        forall|i: usize| i < lines.len() ==> #[trigger] order.contains(i),
        forall|a: int, b: int|
            0 <= a <= b < order.len() ==> lines[#[trigger] order[a] as int] >= lines[
                #[trigger] order[b] as int],
{
    // As many distinct places as there are rows, all among the rows' places:
    // these are all the places.
    let places = order.map_values(|i: usize| i as int);
    let all = set_int_range(0, lines.len() as int);
    assert(order.no_duplicates());
    assert(places.no_duplicates());
    places.unique_seq_to_set();
    seq_to_set_is_finite(places);
    lemma_int_range(0, lines.len() as int);
    assert(places.to_set().subset_of(all));
    lemma_subset_equality(places.to_set(), all);
    assert forall|i: usize| i < lines.len() implies #[trigger] order.contains(i) by {
        assert(places.to_set().contains(i as int));
    }
}

/// The ranking of the rows by their line counts, as indices into `lines`.
pub fn ranking(lines: &Vec<usize>) -> (order: Vec<usize>)
    ensures
        is_ranking(lines@, order@),
{
    let mut order: Vec<usize> = Vec::new();
    let mut i: usize = 0;
    while i < lines.len()
        invariant
            i <= lines.len(),
            order@.len() == i,
            forall|k: int| 0 <= k < order@.len() ==> (#[trigger] order@[k]) < i,
            forall|a: int, b: int|
                0 <= a < b < order@.len() ==> outranks(
                    lines@,
                    #[trigger] order@[a] as int,
                    #[trigger] order@[b] as int,
                ),
        decreases lines.len() - i,
    {
        let mut p: usize = 0;
        while p < order.len() && lines[order[p]] >= lines[i]
            invariant
                i < lines.len(),
                p <= order@.len(),
                forall|k: int| 0 <= k < order@.len() ==> (#[trigger] order@[k]) < i,
                forall|k: int|
                    0 <= k < p ==> lines@[(#[trigger] order@[k]) as int] >= lines@[i as int],
            decreases order@.len() - p,
        {
            p = p + 1;
        }
        let ghost before = order@;
        order.insert(p, i);
        proof {
            assert forall|a: int, b: int| 0 <= a < b < order@.len() implies outranks(
                lines@,
                #[trigger] order@[a] as int,
                #[trigger] order@[b] as int,
            ) by {
                if a == p && b > p + 1 {
                    assert(outranks(lines@, before[p as int] as int, before[b - 1] as int));
                }
            }
        }
        i = i + 1;
    }
    order
}

/// The rows of `source` in the order that `order` gives.
pub open spec fn arranged<T>(source: Seq<T>, order: Seq<usize>) -> Seq<T> {
    Seq::new(order.len(), |k: int| source[order[k] as int])
}

/// The line counts of a language table, row by row.
pub open spec fn language_lines(table: Seq<(String, LanguageInfo)>) -> Seq<usize> {
    table.map_values(|row: (String, LanguageInfo)| row.1.lines)
}

/// The line counts of a contributor table, row by row.
pub open spec fn contributor_lines(table: Seq<(String, ContributorInfo)>) -> Seq<usize> {
    table.map_values(|row: (String, ContributorInfo)| row.1.lines)
}

/// `table` holds the rows of `source`, each once, by falling line count;
/// rows with the same count keep the order they have in `source`.
pub open spec fn ranks_languages(
    source: Seq<(String, LanguageInfo)>,
    table: Seq<(String, LanguageInfo)>,
) -> bool {
    exists|order: Seq<usize>| #[trigger]
        is_ranking(language_lines(source), order) && table == arranged(source, order)
}

/// `table` holds the rows of `source`, each once, by falling line count;
/// rows with the same count keep the order they have in `source`.
pub open spec fn ranks_contributors(
    source: Seq<(String, ContributorInfo)>,
    table: Seq<(String, ContributorInfo)>,
) -> bool {
    exists|order: Seq<usize>| #[trigger]
        is_ranking(contributor_lines(source), order) && table == arranged(source, order)
}

/// The language table of a scan, ranked.
pub fn rank_languages(source: &Vec<(String, LanguageInfo)>) -> (table: Vec<(String, LanguageInfo)>)
    ensures
        ranks_languages(source@, table@),
{
    let mut lines: Vec<usize> = Vec::new();
    let mut i: usize = 0;
    while i < source.len()
        invariant
            i <= source.len(),
            lines@ == language_lines(source@).take(i as int),
        decreases source.len() - i,
    {
        lines.push(source[i].1.lines);
        i = i + 1;
    }
    let order = ranking(&lines);
    let mut table: Vec<(String, LanguageInfo)> = Vec::new();
    let mut k: usize = 0;
    while k < order.len()
        invariant
            k <= order.len(),
            is_ranking(language_lines(source@), order@),
            table@ == arranged(source@, order@).take(k as int),
        decreases order.len() - k,
    {
        let row = &source[order[k]];
        table.push((row.0.clone(), row.1));
        k = k + 1;
    }
    assert(table@ =~= arranged(source@, order@));
    table
}

/// The contributor table of a scan, ranked.
pub fn rank_contributors(source: &Vec<(String, ContributorInfo)>) -> (table: Vec<
    (String, ContributorInfo),
>)
    ensures
        ranks_contributors(source@, table@),
{
    let mut lines: Vec<usize> = Vec::new();
    let mut i: usize = 0;
    while i < source.len()
        invariant
            i <= source.len(),
            lines@ == contributor_lines(source@).take(i as int),
        decreases source.len() - i,
    {
        lines.push(source[i].1.lines);
        i = i + 1;
    }
    let order = ranking(&lines);
    let mut table: Vec<(String, ContributorInfo)> = Vec::new();
    let mut k: usize = 0;
    while k < order.len()
        invariant
            k <= order.len(),
            is_ranking(contributor_lines(source@), order@),
            table@ == arranged(source@, order@).take(k as int),
        decreases order.len() - k,
    {
        let row = &source[order[k]];
        table.push((row.0.clone(), row.1));
        k = k + 1;
    }
    assert(table@ =~= arranged(source@, order@));
    table
}

/// The selection after one step forward in a table of `len` rows: the
/// first row if none was selected, the first again after the last.
pub open spec fn advanced(selected: Option<usize>, len: nat) -> Option<usize> {
    if len == 0 {
        selected
    } else {
        match selected {
            Some(i) => Some(((i + 1) % len as int) as usize),
            None => Some(0),
        }
    }
}

/// The selection after one step back in a table of `len` rows: the last row
/// if none was selected, the last again before the first.
pub open spec fn retreated(selected: Option<usize>, len: nat) -> Option<usize> {
    if len == 0 {
        selected
    } else {
        match selected {
            Some(i) => Some(((i + len - 1) % len as int) as usize),
            None => Some((len - 1) as usize),
        }
    }
}

/// The two selection steps on a row `i` of a table of `len` rows, without
/// the remainder.
proof fn lemma_rotation(i: usize, len: nat)
    requires
        i < len,
    ensures
        (i + 1) % len as int == if i + 1 == len {
            0
        } else {
            i + 1
        },
        (i + len - 1) % len as int == if i == 0 {
            len - 1
        } else {
            i - 1
        },
{
    if i + 1 == len {
        lemma_fundamental_div_mod_converse(i + 1, len as int, 1, 0);
    } else {
        lemma_fundamental_div_mod_converse(i + 1, len as int, 0, i + 1);
    }
    if i == 0 {
        lemma_fundamental_div_mod_converse(i + len - 1, len as int, 0, len - 1);
    } else {
        lemma_fundamental_div_mod_converse(i + len - 1, len as int, 1, i - 1);
    }
}

/// A key of the keyboard.
#[derive(Debug, Clone, Copy, PartialEq, Eq)]
pub enum Key {
    Up,
    Down,
    Tab,
    Char(char),
    Other,
}

/// What the terminal reports between two drawings.
#[derive(Debug, Clone, Copy, PartialEq, Eq)]
pub enum Event {
    Key(Key),
    Resize,
    Other,
}

/// What a key asks of the viewer.
#[derive(Debug, Clone, Copy, PartialEq, Eq)]
pub enum Command {
    Advance,
    Retreat,
    SwitchFocus,
    ToggleView,
    Quit,
}

/// Whether the session goes on after an event.
#[derive(Debug, Clone, Copy, PartialEq, Eq)]
pub enum Flow {
    Continue,
    Quit,
}

/// What a drawing shows.
#[derive(Debug, Clone, Copy, PartialEq, Eq)]
pub enum Screen {
    /// Only the request to enlarge the window.
    TooSmall,
    /// The title, both tables and the help line.
    Tables,
    /// The selected row of the focused table.
    Detail,
}

/// One row of a table as it is drawn.
#[derive(Debug, Clone, PartialEq, Eq)]
pub struct Row {
    pub name: String,
    pub lines: String,
    pub files: String,
    pub highlighted: bool,
}

/// The command of a key: the arrows step through the focused table, Tab
/// changes the focus, `v` the view, `q` ends the session. Other keys have none.
pub open spec fn command_of(key: Key) -> Option<Command> {
    match key {
        Key::Up => Some(Command::Advance),
        Key::Down => Some(Command::Retreat),
        Key::Tab => Some(Command::SwitchFocus),
        Key::Char(c) => if c == 'v' {
            Some(Command::ToggleView)
        } else if c == 'q' {
            Some(Command::Quit)
        } else {
            None
        },
        Key::Other => None,
    }
}

/// Whether a display of this size is too small for the tables.
pub open spec fn too_small(width: u16, height: u16) -> bool {
    width < MIN_WIDTH || height < MIN_HEIGHT
}

/// `row` shows `name` and `tally`: the lines with thousands separators, the
/// files plain.
pub open spec fn row_shows(row: Row, name: Seq<char>, tally: Tally, highlighted: bool) -> bool {
    &&& row.name@ == name
    &&& row.lines@ == grouped(tally.lines)
    &&& row.files@ == decimal(tally.files)
    &&& row.highlighted == highlighted
}

/// The text of the detail view for a row.
pub open spec fn detail_of(label: Seq<char>, name: Seq<char>, tally: Tally) -> Seq<char> {
    label + ": "@ + name + "\nTotal Lines: "@ + grouped(tally.lines) + "\nFiles: "@ + decimal(
        tally.files,
    )
}

/// What a viewer holds.
pub struct AppView {
    pub language_table: Seq<(String, LanguageInfo)>,
    pub contributor_table: Seq<(String, ContributorInfo)>,
    pub lang_state: Option<usize>,
    pub contrib_state: Option<usize>,
    pub focus_on_lang: bool,
    pub view_mode: bool,
}

impl AppView {
    /// A selection, where there is one, is a row of its table.
    pub open spec fn wf(self) -> bool {
        &&& self.lang_state matches Some(i) ==> i < self.language_table.len()
        &&& self.contrib_state matches Some(i) ==> i < self.contributor_table.len()
    }

    /// One step forward in the focused table; nothing in the detail view.
    pub open spec fn next(self) -> AppView {
        if self.view_mode {
            self
        } else if self.focus_on_lang {
            AppView { lang_state: advanced(self.lang_state, self.language_table.len()), ..self }
        } else {
            AppView {
                contrib_state: advanced(self.contrib_state, self.contributor_table.len()),
                ..self
            }
        }
    }

    /// One step back in the focused table; nothing in the detail view.
    pub open spec fn previous(self) -> AppView {
        if self.view_mode {
            self
        } else if self.focus_on_lang {
            AppView { lang_state: retreated(self.lang_state, self.language_table.len()), ..self }
        } else {
            AppView {
                contrib_state: retreated(self.contrib_state, self.contributor_table.len()),
                ..self
            }
        }
    }

    /// The focus moves to the other table; nothing in the detail view.
    pub open spec fn switch_focus(self) -> AppView {
        if self.view_mode {
            self
        } else {
            AppView { focus_on_lang: !self.focus_on_lang, ..self }
        }
    }

    /// From the tables to the detail view, or back.
    pub open spec fn toggle_view_mode(self) -> AppView {
        AppView { view_mode: !self.view_mode, ..self }
    }

    /// The viewer after a command. `Quit` leaves it as it is.
    pub open spec fn apply(self, command: Command) -> AppView {
        match command {
            Command::Advance => self.next(),
            Command::Retreat => self.previous(),
            Command::SwitchFocus => self.switch_focus(),
            Command::ToggleView => self.toggle_view_mode(),
            Command::Quit => self,
        }
    }

    /// The viewer after an event that arrived while the display had the
    /// given size, and whether the session goes on. `q` ends the session on
    /// any display; on one that is too small nothing else is taken.
    pub open spec fn handle(self, event: Event, width: u16, height: u16) -> (AppView, Flow) {
        match event {
            Event::Key(key) => match command_of(key) {
                Some(Command::Quit) => (self, Flow::Quit),
                Some(command) => if too_small(width, height) {
                    (self, Flow::Continue)
                } else {
                    (self.apply(command), Flow::Continue)
                },
                None => (self, Flow::Continue),
            },
            _ => (self, Flow::Continue),
        }
    }

    /// What is drawn on a display of the given size.
    pub open spec fn screen(self, width: u16, height: u16) -> Screen {
        if too_small(width, height) {
            Screen::TooSmall
        } else if self.view_mode {
            Screen::Detail
        } else {
            Screen::Tables
        }
    }

    /// Whether row `i` of the language table is drawn as the selected one.
    pub open spec fn language_highlighted(self, i: int) -> bool {
        self.focus_on_lang && !self.view_mode && self.lang_state == Some(i as usize)
    }

    /// Whether row `i` of the contributor table is drawn as the selected one.
    pub open spec fn contributor_highlighted(self, i: int) -> bool {
        !self.focus_on_lang && !self.view_mode && self.contrib_state == Some(i as usize)
    }

    /// The mark in front of the selected row.
    pub open spec fn highlight_symbol(self) -> Seq<char> {
        if self.view_mode {
            ""@
        } else {
            ">> "@
        }
    }

    /// The heading of the detail view.
    pub open spec fn detail_title(self) -> Seq<char> {
        if self.focus_on_lang {
            "Language Details"@
        } else {
            "Contributor Details"@
        }
    }

    /// The text of the detail view: the selected row of the focused table,
    /// or the notice that none is selected.
    pub open spec fn detail_content(self) -> Seq<char> {
        if self.focus_on_lang {
            match self.lang_state {
                Some(i) if i < self.language_table.len() => detail_of(
                    "Language"@,
                    self.language_table[i as int].0@,
                    self.language_table[i as int].1@,
                ),
                _ => "No item selected."@,
            }
        } else {
            match self.contrib_state {
                Some(i) if i < self.contributor_table.len() => detail_of(
                    "Contributor"@,
                    self.contributor_table[i as int].0@,
                    self.contributor_table[i as int].1@,
                ),
                _ => "No item selected."@,
            }
        }
    }
}

/// In the detail view a change of focus changes nothing.
pub proof fn lemma_switch_focus_in_detail(app: AppView)
    requires
        app.view_mode,
    ensures
        app.switch_focus() == app,
{
}

/// In the detail view a step in either direction changes nothing.
pub proof fn lemma_steps_in_detail(app: AppView)
    requires
        app.view_mode,
    ensures
        app.next() == app,
        app.previous() == app,
{
}

/// A change of view keeps both selections and the focus, and a second
/// change gives back the viewer as it was.
pub proof fn lemma_toggle_view_mode_twice(app: AppView)
    ensures
        app.toggle_view_mode().lang_state == app.lang_state,
        app.toggle_view_mode().contrib_state == app.contrib_state,
        app.toggle_view_mode().focus_on_lang == app.focus_on_lang,
        app.toggle_view_mode().toggle_view_mode() == app,
{
}

/// No command and no event takes a selection out of its table, and none
/// changes a table.
pub proof fn lemma_selection_stays_valid(
    app: AppView,
    command: Command,
    event: Event,
    width: u16,
    height: u16,
)
    requires
        app.wf(),
    ensures
        app.apply(command).wf(),
        app.apply(command).language_table == app.language_table,
        app.apply(command).contributor_table == app.contributor_table,
        app.handle(event, width, height).0.wf(),
        app.handle(event, width, height).0.language_table == app.language_table,
        app.handle(event, width, height).0.contributor_table == app.contributor_table,
{
    if app.lang_state is Some && app.language_table.len() > 0 {
        lemma_rotation(app.lang_state->0, app.language_table.len());
    }
    if app.contrib_state is Some && app.contributor_table.len() > 0 {
        lemma_rotation(app.contrib_state->0, app.contributor_table.len());
    }
}

/// On a display that is too small only `q` has an effect.
pub proof fn lemma_too_small_takes_no_input(app: AppView, event: Event, width: u16, height: u16)
    requires
        too_small(width, height),
    ensures
        app.handle(event, width, height).0 == app,
        app.handle(event, width, height).1 == Flow::Quit <==> event == Event::Key(Key::Char('q')),
{
}

/// The command of a key.
pub fn command_for(key: Key) -> (command: Option<Command>)
    ensures
        command == command_of(key),
{
    match key {
        Key::Up => Some(Command::Advance),
        Key::Down => Some(Command::Retreat),
        Key::Tab => Some(Command::SwitchFocus),
        Key::Char(c) => if c == 'v' {
            Some(Command::ToggleView)
        } else if c == 'q' {
            Some(Command::Quit)
        } else {
            None
        },
        Key::Other => None,
    }
}

/// Whether a display of this size gets only the request to enlarge it.
pub fn viewport_too_small(width: u16, height: u16) -> (small: bool)
    ensures
        small == too_small(width, height),
{
    width < MIN_WIDTH || height < MIN_HEIGHT
}

/// How long to wait for the next event, in milliseconds, when the last tick
/// was `elapsed` milliseconds ago: the rest of the tick, and no time once it
/// is over.
pub fn poll_timeout(elapsed: u64) -> (wait: u64)
    ensures
        wait == if elapsed >= TICK_MILLIS {
            0
        } else {
            TICK_MILLIS - elapsed
        },
{
    if elapsed >= TICK_MILLIS {
        0
    } else {
        TICK_MILLIS - elapsed
    }
}

/// Whether a tick has passed `elapsed` milliseconds after the last one.
pub fn tick_over(elapsed: u64) -> (over: bool)
    ensures
        over == (elapsed >= TICK_MILLIS),
{
    elapsed >= TICK_MILLIS
}

/// Writes the detail view of one row.
fn detail_text(label: &str, name: &str, lines: usize, files: usize) -> (text: String)
    ensures
        text@ == detail_of(label@, name@, Tally { lines: lines as nat, files: files as nat }),
{
    let mut text = label.to_owned();
    text.append(": ");
    text.append(name);
    text.append("\nTotal Lines: ");
    text.append(format_integer(lines).as_str());
    text.append("\nFiles: ");
    text.append(decimal_string(files).as_str());
    text
}

/// The viewer: the two tables of a scan, ranked, and where the user stands in
/// them.
pub struct App {
    language_table: Vec<(String, LanguageInfo)>,
    contributor_table: Vec<(String, ContributorInfo)>,
    lang_state: Option<usize>,
    contrib_state: Option<usize>,
    focus_on_lang: bool,
    view_mode: bool,
}

impl View for App {
    type V = AppView;

    closed spec fn view(&self) -> AppView {
        AppView {
            language_table: self.language_table@,
            contributor_table: self.contributor_table@,
            lang_state: self.lang_state,
            contrib_state: self.contrib_state,
            focus_on_lang: self.focus_on_lang,
            view_mode: self.view_mode,
        }
    }
}

impl App {
    #[verifier::type_invariant]
    spec fn inv(self) -> bool {
        self@.wf()
    }

    /// A viewer of the tallies of a scan: both tables ranked, nothing
    /// selected, the focus on the languages, the tables shown.
    pub fn new(stats: Stats) -> (app: App)
        ensures
            ranks_languages(stats.languages@, app@.language_table),
            ranks_contributors(stats.contributors@, app@.contributor_table),
            app@.lang_state is None,
            app@.contrib_state is None,
            app@.focus_on_lang,
            !app@.view_mode,
            app@.wf(),
    {
        App {
            language_table: rank_languages(&stats.languages),
            contributor_table: rank_contributors(&stats.contributors),
            lang_state: None,
            contrib_state: None,
            focus_on_lang: true,
            view_mode: false,
        }
    }

    /// Moves the selection of the focused table one row on.
    pub fn next(&mut self)
        ensures
            final(self)@ == old(self)@.next(),
            final(self)@.wf(),
    {
        proof {
            use_type_invariant(&*self);
        }
        if self.view_mode {
            return ;
        }
        if self.focus_on_lang {
            let len = self.language_table.len();
            if len > 0 {
                proof {
                    if self.lang_state is Some {
                        lemma_rotation(self.lang_state->0, len as nat);
                    }
                }
                let i: usize = match self.lang_state {
                    Some(i) => if i >= len - 1 {
                        0
                    } else {
                        i + 1
                    },
                    None => 0,
                };
                self.lang_state = Some(i);
            }
        } else {
            let len = self.contributor_table.len();
            if len > 0 {
                proof {
                    if self.contrib_state is Some {
                        lemma_rotation(self.contrib_state->0, len as nat);
                    }
                }
                let i: usize = match self.contrib_state {
                    Some(i) => if i >= len - 1 {
                        0
                    } else {
                        i + 1
                    },
                    None => 0,
                };
                self.contrib_state = Some(i);
            }
        }
    }

    /// Moves the selection of the focused table one row back.
    pub fn previous(&mut self)
        ensures
            final(self)@ == old(self)@.previous(),
            final(self)@.wf(),
    {
        proof {
            use_type_invariant(&*self);
        }
        if self.view_mode {
            return ;
        }
        if self.focus_on_lang {
            let len = self.language_table.len();
            if len > 0 {
                proof {
                    if self.lang_state is Some {
                        lemma_rotation(self.lang_state->0, len as nat);
                    }
                }
                let i: usize = match self.lang_state {
                    Some(i) => if i == 0 {
                        len - 1
                    } else {
                        i - 1
                    },
                    None => len - 1,
                };
                self.lang_state = Some(i);
            }
        } else {
            let len = self.contributor_table.len();
            if len > 0 {
                proof {
                    if self.contrib_state is Some {
                        lemma_rotation(self.contrib_state->0, len as nat);
                    }
                }
                let i: usize = match self.contrib_state {
                    Some(i) => if i == 0 {
                        len - 1
                    } else {
                        i - 1
                    },
                    None => len - 1,
                };
                self.contrib_state = Some(i);
            }
        }
    }

    /// Moves the focus to the other table.
    pub fn switch_focus(&mut self)
        ensures
            final(self)@ == old(self)@.switch_focus(),
            final(self)@.wf(),
    {
        proof {
            use_type_invariant(&*self);
        }
        if self.view_mode {
            return ;
        }
        self.focus_on_lang = !self.focus_on_lang;
    }

    /// Changes between the tables and the detail view.
    pub fn toggle_view_mode(&mut self)
        ensures
            final(self)@ == old(self)@.toggle_view_mode(),
            final(self)@.wf(),
    {
        proof {
            use_type_invariant(&*self);
        }
        self.view_mode = !self.view_mode;
    }

    /// Takes one event that arrived while the display had the given size.
    pub fn handle_event(&mut self, event: Event, width: u16, height: u16) -> (flow: Flow)
        ensures
            (final(self)@, flow) == old(self)@.handle(event, width, height),
            final(self)@.wf(),
    {
        proof {
            use_type_invariant(&*self);
        }
        match event {
            Event::Key(key) => match command_for(key) {
                Some(Command::Quit) => Flow::Quit,
                Some(command) => {
                    if !viewport_too_small(width, height) {
                        match command {
                            Command::Advance => self.next(),
                            Command::Retreat => self.previous(),
                            Command::SwitchFocus => self.switch_focus(),
                            Command::ToggleView => self.toggle_view_mode(),
                            Command::Quit => {},
                        }
                    }
                    Flow::Continue
                },
                None => Flow::Continue,
            },
            _ => Flow::Continue,
        }
    }

    /// What to draw on a display of the given size.
    pub fn screen(&self, width: u16, height: u16) -> (screen: Screen)
        ensures
            screen == self@.screen(width, height),
    {
        if viewport_too_small(width, height) {
            Screen::TooSmall
        } else if self.view_mode {
            Screen::Detail
        } else {
            Screen::Tables
        }
    }

    /// The selected row of the language table.
    pub fn selected_language(&self) -> (selected: Option<usize>)
        ensures
            selected == self@.lang_state,
            self@.wf(),
    {
        proof {
            use_type_invariant(self);
        }
        self.lang_state
    }

    /// The selected row of the contributor table.
    pub fn selected_contributor(&self) -> (selected: Option<usize>)
        ensures
            selected == self@.contrib_state,
            self@.wf(),
    {
        proof {
            use_type_invariant(self);
        }
        self.contrib_state
    }

    /// Whether the language table has the focus.
    pub fn focus_on_lang(&self) -> (focus: bool)
        ensures
            focus == self@.focus_on_lang,
    {
        self.focus_on_lang
    }

    /// Whether the detail view is shown.
    pub fn view_mode(&self) -> (detail: bool)
        ensures
            detail == self@.view_mode,
    {
        self.view_mode
    }

    /// The language table, ranked.
    pub fn language_table(&self) -> (table: &Vec<(String, LanguageInfo)>)
        ensures
            table@ == self@.language_table,
    {
        &self.language_table
    }

    /// The contributor table, ranked.
    pub fn contributor_table(&self) -> (table: &Vec<(String, ContributorInfo)>)
        ensures
            table@ == self@.contributor_table,
    {
        &self.contributor_table
    }

    /// The rows of the language table as they are drawn.
    pub fn language_rows(&self) -> (rows: Vec<Row>)
        ensures
            rows@.len() == self@.language_table.len(),
            forall|i: int|
                0 <= i < rows@.len() ==> row_shows(
                    #[trigger] rows@[i],
                    self@.language_table[i].0@,
                    self@.language_table[i].1@,
                    self@.language_highlighted(i),
                ),
    {
        let mut rows: Vec<Row> = Vec::new();
        let mut i: usize = 0;
        while i < self.language_table.len()
            invariant
                i <= self.language_table.len(),
                rows@.len() == i,
                forall|k: int|
                    0 <= k < i ==> row_shows(
                        #[trigger] rows@[k],
                        self@.language_table[k].0@,
                        self@.language_table[k].1@,
                        self@.language_highlighted(k),
                    ),
            decreases self.language_table.len() - i,
        {
            let entry = &self.language_table[i];
            let selected = match self.lang_state {
                Some(s) => s == i,
                None => false,
            };
            rows.push(
                Row {
                    name: entry.0.clone(),
                    lines: format_integer(entry.1.lines),
                    files: decimal_string(entry.1.files),
                    highlighted: self.focus_on_lang && selected && !self.view_mode,
                },
            );
            i = i + 1;
        }
        rows
    }

    /// The rows of the contributor table as they are drawn.
    pub fn contributor_rows(&self) -> (rows: Vec<Row>)
        ensures
            rows@.len() == self@.contributor_table.len(),
            forall|i: int|
                0 <= i < rows@.len() ==> row_shows(
                    #[trigger] rows@[i],
                    self@.contributor_table[i].0@,
                    self@.contributor_table[i].1@,
                    self@.contributor_highlighted(i),
                ),
    {
        let mut rows: Vec<Row> = Vec::new();
        let mut i: usize = 0;
        while i < self.contributor_table.len()
            invariant
                i <= self.contributor_table.len(),
                rows@.len() == i,
                forall|k: int|
                    0 <= k < i ==> row_shows(
                        #[trigger] rows@[k],
                        self@.contributor_table[k].0@,
                        self@.contributor_table[k].1@,
                        self@.contributor_highlighted(k),
                    ),
            decreases self.contributor_table.len() - i,
        {
            let entry = &self.contributor_table[i];
            let selected = match self.contrib_state {
                Some(s) => s == i,
                None => false,
            };
            rows.push(
                Row {
                    name: entry.0.clone(),
                    lines: format_integer(entry.1.lines),
                    files: decimal_string(entry.1.files),
                    highlighted: !self.focus_on_lang && selected && !self.view_mode,
                },
            );
            i = i + 1;
        }
        rows
    }

    /// The mark that the tables put in front of the selected row.
    pub fn highlight_symbol(&self) -> (symbol: &'static str)
        ensures
            symbol@ == self@.highlight_symbol(),
    {
        if self.view_mode {
            ""
        } else {
            ">> "
        }
    }

    /// The heading of the detail view.
    pub fn detail_title(&self) -> (title: &'static str)
        ensures
            title@ == self@.detail_title(),
    {
        if self.focus_on_lang {
            "Language Details"
        } else {
            "Contributor Details"
        }
    }

    /// The text of the detail view.
    pub fn detail_content(&self) -> (content: String)
        ensures
            content@ == self@.detail_content(),
    {
        proof {
            use_type_invariant(self);
        }
        if self.focus_on_lang {
            match self.lang_state {
                Some(i) => {
                    let entry = &self.language_table[i];
                    detail_text("Language", entry.0.as_str(), entry.1.lines, entry.1.files)
                },
                None => "No item selected.".to_owned(),
            }
        } else {
            match self.contrib_state {
                Some(i) => {
                    let entry = &self.contributor_table[i];
                    detail_text("Contributor", entry.0.as_str(), entry.1.lines, entry.1.files)
                },
                None => "No item selected.".to_owned(),
            }
        }
    }
}

} // verus!
