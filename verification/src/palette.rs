//! The command palette: a query line over a list of actions, ranked by a
//! fuzzy match, doubling as the console of the scripting runtime.
use vstd::prelude::*;
use vstd::string::StrSliceExecFns;
use vstd::string::StringSliceAdditionalSpecFns;
use vstd::utf8::encode_utf8;

use crate::api::SplitDirection;
use crate::text::{bytes_less, less_bytes, lowercase, push_str, to_lowercase};

verus! {

/// What choosing a palette entry does.
#[derive(Debug, PartialEq, Eq)]
pub enum PaletteAction {
    ReloadConfig,
    NewTab,
    MaximizeWindow,
    ToggleMaximize,
    MinimizeWindow,
    ToggleFullscreen,
    Split(SplitDirection),
    ClosePane,
    SwitchWorkspace(String),
    RubyConsole,
    UserCommand(String),
}

impl Clone for PaletteAction {
    fn clone(&self) -> (r: PaletteAction)
        ensures
            r == *self,
    {
        match self {
            PaletteAction::ReloadConfig => PaletteAction::ReloadConfig,
            PaletteAction::NewTab => PaletteAction::NewTab,
            PaletteAction::MaximizeWindow => PaletteAction::MaximizeWindow,
            PaletteAction::ToggleMaximize => PaletteAction::ToggleMaximize,
            PaletteAction::MinimizeWindow => PaletteAction::MinimizeWindow,
            PaletteAction::ToggleFullscreen => PaletteAction::ToggleFullscreen,
            PaletteAction::Split(direction) => PaletteAction::Split(*direction),
            PaletteAction::ClosePane => PaletteAction::ClosePane,
            PaletteAction::SwitchWorkspace(name) => PaletteAction::SwitchWorkspace(name.clone()),
            PaletteAction::RubyConsole => PaletteAction::RubyConsole,
            PaletteAction::UserCommand(name) => PaletteAction::UserCommand(name.clone()),
        }
    }
}

/// An entry of the palette: its label and its action.
#[derive(Debug, PartialEq, Eq)]
pub struct PaletteItem {
    pub label: String,
    pub action: PaletteAction,
}

impl Clone for PaletteItem {
    fn clone(&self) -> (r: PaletteItem)
        ensures
            r == *self,
    {
        PaletteItem { label: self.label.clone(), action: self.action.clone() }
    }
}

/// The most lines of console output that the palette keeps.
pub const CONSOLE_OUTPUT_LINES: usize = 12;

/// The state of the command palette.
#[derive(Debug)]
pub struct CommandPalette {
    open: bool,
    ruby_console: bool,
    query: String,
    console_output: Vec<String>,
    selected: usize,
}

impl Default for CommandPalette {
    fn default() -> (p: CommandPalette)
        ensures
            !p.spec_open(),
            !p.spec_console(),
            p.spec_query() == Seq::<char>::empty(),
            p.spec_console_output() == Seq::<String>::empty(),
            p.spec_selected() == 0,
    {
        CommandPalette {
            open: false,
            ruby_console: false,
            query: String::new(),
            console_output: Vec::new(),
            selected: 0,
        }
    }
}

impl CommandPalette {
    pub closed spec fn spec_open(&self) -> bool {
        self.open
    }

    /// Whether the palette is in console mode (meaningful while open).
    pub closed spec fn spec_console(&self) -> bool {
        self.ruby_console
    }

    pub closed spec fn spec_query(&self) -> Seq<char> {
        self.query@
    }

    pub closed spec fn spec_console_output(&self) -> Seq<String> {
        self.console_output@
    }

    pub closed spec fn spec_selected(&self) -> usize {
        self.selected
    }

    /// Opens the palette on the list of actions with an empty query.
    pub fn open(&mut self)
        ensures
            final(self).spec_open(),
            !final(self).spec_console(),
            final(self).spec_query() == Seq::<char>::empty(),
            final(self).spec_selected() == 0,
            final(self).spec_console_output() == old(self).spec_console_output(),
    {
        self.open = true;
        self.ruby_console = false;
        self.query = String::new();
        self.selected = 0;
    }

    /// Opens the palette as the scripting console with an empty query.
    pub fn open_console(&mut self)
        ensures
            final(self).spec_open(),
            final(self).spec_console(),
            final(self).spec_query() == Seq::<char>::empty(),
            final(self).spec_selected() == 0,
            final(self).spec_console_output() == old(self).spec_console_output(),
    {
        self.open = true;
        self.ruby_console = true;
        self.query = String::new();
        self.selected = 0;
    }

    /// Closes the palette, clearing the query.
    pub fn close(&mut self)
        ensures
            !final(self).spec_open(),
            final(self).spec_console() == old(self).spec_console(),
            final(self).spec_query() == Seq::<char>::empty(),
            final(self).spec_selected() == 0,
            final(self).spec_console_output() == old(self).spec_console_output(),
    {
        self.open = false;
        self.query = String::new();
        self.selected = 0;
    }

    pub fn is_open(&self) -> (r: bool)
        ensures
            r == self.spec_open(),
    {
        self.open
    }

    /// Whether the palette is open as the scripting console.
    pub fn is_console(&self) -> (r: bool)
        ensures
            r == (self.spec_open() && self.spec_console()),
    {
        self.open && self.ruby_console
    }

    pub fn query(&self) -> (r: &str)
        ensures
            r@ == self.spec_query(),
    {
        self.query.as_str()
    }

    pub fn selected(&self) -> (r: usize)
        ensures
            r == self.spec_selected(),
    {
        self.selected
    }

    pub fn console_output(&self) -> (r: &[String])
        ensures
            r@ == self.spec_console_output(),
    {
        self.console_output.as_slice()
    }

    /// Types `text` into the query; the selection returns to the first entry.
    pub fn insert(&mut self, text: &str)
        ensures
            final(self).spec_query() == old(self).spec_query() + text@,
            final(self).spec_selected() == 0,
            final(self).spec_open() == old(self).spec_open(),
            final(self).spec_console() == old(self).spec_console(),
            final(self).spec_console_output() == old(self).spec_console_output(),
    {
        push_str(&mut self.query, text);
        self.selected = 0;
    }

    /// Deletes the last character of the query, if any; the selection
    /// returns to the first entry.
    pub fn backspace(&mut self)
        ensures
            final(self).spec_query() == if old(self).spec_query().len() == 0 {
                old(self).spec_query()
            } else {
                old(self).spec_query().drop_last()
            },
            final(self).spec_selected() == 0,
            final(self).spec_open() == old(self).spec_open(),
            final(self).spec_console() == old(self).spec_console(),
            final(self).spec_console_output() == old(self).spec_console_output(),
    {
        let n = self.query.as_str().unicode_len();
        if n > 0 {
            let shorter = self.query.as_str().substring_char(0, n - 1).to_owned();
            self.query = shorter;
            proof {
                assert(self.query@ =~= old(self).query@.drop_last());
            }
        }
        self.selected = 0;
    }

    /// Moves the selection by `delta` entries among `item_count`, wrapping
    /// around; with no entries the selection is the first.
    pub fn move_selection(&mut self, delta: isize, item_count: usize)
        requires
            item_count <= isize::MAX,
            old(self).spec_selected() <= isize::MAX,
            isize::MIN <= old(self).spec_selected() + delta <= isize::MAX,
        ensures
            final(self).spec_selected() == if item_count == 0 {
                0
            } else {
                ((old(self).spec_selected() + delta) % (item_count as int)) as usize
            },
            final(self).spec_query() == old(self).spec_query(),
            final(self).spec_open() == old(self).spec_open(),
            final(self).spec_console() == old(self).spec_console(),
            final(self).spec_console_output() == old(self).spec_console_output(),
    {
        if item_count == 0 {
            self.selected = 0;
            return;
        }
        let position: isize = self.selected as isize + delta;
        let count: usize = item_count;
        let wrapped: usize = if position >= 0 {
            (position as usize) % count
        } else {
            let back: usize = ((-(position as i128)) as u128 % (count as u128)) as usize;
            if back == 0 {
                0
            } else {
                count - back
            }
        };
        proof {
            let p = position as int;
            let c = count as int;
            if p >= 0 {
                assert(wrapped == p % c);
            } else {
                let q = -p;
                let m = q % c;
                assert(q == (q / c) * c + m) by {
                    vstd::arithmetic::div_mod::lemma_fundamental_div_mod(q, c);
                    vstd::arithmetic::mul::lemma_mul_is_commutative(c, q / c);
                }
                let k = q / c;
                if m == 0 {
                    assert(p == (-k) * c + 0) by (nonlinear_arith)
                        requires
                            p == -q,
                            q == k * c + m,
                            m == 0,
                    ;
                    vstd::arithmetic::div_mod::lemma_fundamental_div_mod_converse(
                        p,
                        c,
                        -(q / c),
                        0,
                    );
                } else {
                    assert(p == (-k - 1) * c + (c - m)) by (nonlinear_arith)
                        requires
                            p == -q,
                            q == k * c + m,
                    ;
                    vstd::arithmetic::div_mod::lemma_fundamental_div_mod_converse(
                        p,
                        c,
                        -(q / c) - 1,
                        c - m,
                    );
                }
            }
        }
        self.selected = wrapped as usize;
    }

    /// Takes the query out of the palette, leaving it empty; the selection
    /// returns to the first entry.
    pub fn take_input(&mut self) -> (r: String)
        ensures
            r@ == old(self).spec_query(),
            final(self).spec_query() == Seq::<char>::empty(),
            final(self).spec_selected() == 0,
            final(self).spec_open() == old(self).spec_open(),
            final(self).spec_console() == old(self).spec_console(),
            final(self).spec_console_output() == old(self).spec_console_output(),
    {
        self.selected = 0;
        let mut input = String::new();
        std::mem::swap(&mut input, &mut self.query);
        input
    }
}

/// The views of a list of strings.
pub open spec fn views(lines: Seq<String>) -> Seq<Seq<char>> {
    lines.map_values(|line: String| line@)
}

/// The last `CONSOLE_OUTPUT_LINES` lines of `lines`.
pub open spec fn last_console_lines(lines: Seq<Seq<char>>) -> Seq<Seq<char>> {
    if lines.len() > CONSOLE_OUTPUT_LINES {
        lines.skip(lines.len() - CONSOLE_OUTPUT_LINES)
    } else {
        lines
    }
}

impl CommandPalette {
    /// Records a console evaluation: the input, then its value or error;
    /// only the last `CONSOLE_OUTPUT_LINES` lines are kept.
    pub fn push_console_result(&mut self, input: &str, result: Result<&str, &str>)
        ensures
            views(final(self).spec_console_output()) == last_console_lines(
                views(old(self).spec_console_output()) + seq![
                    "> "@ + input@,
                    match result {
                        Ok(value) => "=> "@ + value@,
                        Err(error) => "! "@ + error@,
                    },
                ],
            ),
            final(self).spec_query() == old(self).spec_query(),
            final(self).spec_selected() == old(self).spec_selected(),
            final(self).spec_open() == old(self).spec_open(),
            final(self).spec_console() == old(self).spec_console(),
    {
        let ghost before = views(self.console_output@);
        let mut echo = String::new();
        push_str(&mut echo, "> ");
        push_str(&mut echo, input);
        let mut answer = String::new();
        match result {
            Ok(value) => {
                push_str(&mut answer, "=> ");
                push_str(&mut answer, value);
            },
            Err(error) => {
                push_str(&mut answer, "! ");
                push_str(&mut answer, error);
            },
        }
        let ghost lines = before + seq![echo@, answer@];
        self.console_output.push(echo);
        self.console_output.push(answer);
        proof {
            assert(views(self.console_output@) =~= lines);
            assert(lines.skip(0) =~= lines);
        }
        let ghost mut dropped: int = 0;
        while self.console_output.len() > CONSOLE_OUTPUT_LINES
            invariant
                views(self.console_output@) == lines.skip(dropped),
                0 <= dropped <= lines.len(),
                self.console_output@.len() == lines.len() - dropped,
                dropped > 0 ==> self.console_output@.len() >= CONSOLE_OUTPUT_LINES,
                self.query == old(self).query,
                self.selected == old(self).selected,
                self.open == old(self).open,
                self.ruby_console == old(self).ruby_console,
            decreases self.console_output@.len(),
        {
            let ghost prev = self.console_output@;
            self.console_output.remove(0);
            proof {
                assert(self.console_output@ =~= prev.subrange(1, prev.len() as int));
                assert(views(self.console_output@) =~= views(prev).subrange(
                    1,
                    views(prev).len() as int,
                ));
                assert(lines.skip(dropped + 1) =~= lines.skip(dropped).subrange(
                    1,
                    lines.skip(dropped).len() as int,
                ));
                dropped = dropped + 1;
            }
        }
        proof {
            if dropped > 0 {
                assert(self.console_output@.len() == CONSOLE_OUTPUT_LINES);
            }
        }
    }
}

/// The byte length of the UTF-8 character that starts with `b`.
pub open spec fn utf8_width(b: u8) -> int {
    if b < 0xC0 {
        1
    } else if b < 0xE0 {
        2
    } else if b < 0xF0 {
        3
    } else {
        4
    }
}

/// The first position at or after `from` where `needle` occurs in `hay`.
pub open spec fn first_match(hay: Seq<u8>, needle: Seq<u8>, from: int) -> Option<int>
    decreases hay.len() + 1 - from,
{
    if from < 0 || from + needle.len() > hay.len() {
        None
    } else if hay.subrange(from, from + needle.len()) == needle {
        Some(from)
    } else {
        first_match(hay, needle, from + 1)
    }
}

/// The points that the query characters from byte `at` on earn in
/// `candidate`: each is looked for after the previous match, earning 8 when
/// it directly follows the previous match and 2 otherwise, and 4 more at the
/// start of the candidate or of a word; `None` when one is not found.
pub open spec fn fuzzy_points(candidate: Seq<u8>, query: Seq<u8>, at: int, search_from: int, previous: int) -> Option<int>
    decreases query.len() - at,
{
    if at < 0 || at >= query.len() {
        Some(0)
    } else {
        let w = if utf8_width(query[at]) <= query.len() - at {
            utf8_width(query[at])
        } else {
            query.len() - at
        };
        let needle = query.subrange(at, at + w);
        match first_match(candidate, needle, search_from) {
            None => None,
            Some(index) => {
                let bonus = (if previous >= 0 && previous == index - 1 {
                    8int
                } else {
                    2int
                }) + (if index == 0 || candidate[index - 1] == 32 {
                    4int
                } else {
                    0int
                });
                match fuzzy_points(candidate, query, at + w, index + w, index) {
                    Some(rest) => Some(bonus + rest),
                    None => None,
                }
            },
        }
    }
}

/// The score of `candidate` for `query` (both as UTF-8 bytes): the points of
/// the query's characters less an eighth of the candidate's length, or
/// `None` when the query's characters do not all occur in order. An empty
/// query scores zero.
pub open spec fn spec_fuzzy_score(candidate: Seq<u8>, query: Seq<u8>) -> Option<int> {
    if query.len() == 0 {
        Some(0)
    } else {
        match fuzzy_points(candidate, query, 0, 0, -1) {
            Some(points) => Some(points - div8_toward_zero(candidate.len() as i32)),
            None => None,
        }
    }
}

pub(crate) fn find_bytes(hay: &[u8], query: &[u8], at: usize, w: usize, from: usize) -> (r: Option<usize>)
    requires
        at + w <= query@.len(),
    ensures
        match r {
            Some(i) => first_match(hay@, query@.subrange(at as int, at + w), from as int)
                == Some(i as int),
            None => first_match(hay@, query@.subrange(at as int, at + w), from as int) is None,
        },
{
    let ghost needle = query@.subrange(at as int, at + w);
    let hay_len = hay.len();
    let query_len = query.len();
    let mut p: usize = from;
    while p <= hay.len() && w <= hay.len() - p
        invariant
            from <= p,
            hay_len == hay@.len(),
            query_len == query@.len(),
            first_match(hay@, needle, from as int) == first_match(hay@, needle, p as int),
            needle == query@.subrange(at as int, at + w),
            at + w <= query@.len(),
        decreases hay@.len() + 1 - p,
    {
        let mut k: usize = 0;
        while k < w && hay[p + k] == query[at + k]
            invariant
                k <= w,
                p + w <= hay@.len(),
                hay_len == hay@.len(),
                query_len == query@.len(),
                at + w <= query@.len(),
                forall|j: int|
                    0 <= j < k ==> #[trigger] hay@.subrange(p as int, p + w)[j] == query@.subrange(
                        at as int,
                        at + w,
                    )[j],
            decreases w - k,
        {
            k = k + 1;
        }
        if k == w {
            proof {
                assert(hay@.subrange(p as int, p + w) =~= needle);
            }
            return Some(p);
        }
        proof {
            assert(hay@.subrange(p as int, p + w)[k as int] != needle[k as int]);
        }
        p = p + 1;
    }
    None
}

/// Rust's division of an `i32` by eight, rounding toward zero.
pub open spec fn div8_toward_zero(x: i32) -> int {
    if x >= 0 {
        x / 8
    } else {
        -((-x) / 8)
    }
}

/// Scores `candidate` against `query` for the palette's fuzzy filter.
pub fn fuzzy_score(candidate: &str, query: &str) -> (r: Option<i128>)
    ensures
        match spec_fuzzy_score(candidate.spec_bytes(), query.spec_bytes()) {
            Some(s) => r matches Some(x) && x as int == s,
            None => r is None,
        },
{
    let c = candidate.as_bytes();
    let q = query.as_bytes();
    if q.len() == 0 {
        return Some(0);
    }
    let mut score: i128 = 0;
    let mut at: usize = 0;
    let mut search_from: usize = 0;
    let mut previous: usize = 0;
    let mut has_previous = false;
    while at < q.len()
        invariant
            c@ == candidate.spec_bytes(),
            q@ == query.spec_bytes(),
            q@.len() > 0,
            at <= q@.len(),
            q@.len() <= usize::MAX,
            0 <= score <= 12 * at,
            search_from <= c@.len(),
            has_previous ==> previous < search_from,
            fuzzy_points(c@, q@, 0, 0, -1) == match fuzzy_points(
                c@,
                q@,
                at as int,
                search_from as int,
                if has_previous {
                    previous as int
                } else {
                    -1
                },
            ) {
                Some(rest) => Some(score + rest),
                None => None::<int>,
            },
        decreases q@.len() - at,
    {
        let lead = q[at];
        let width: usize = if lead < 0xC0 {
            1
        } else if lead < 0xE0 {
            2
        } else if lead < 0xF0 {
            3
        } else {
            4
        };
        let w: usize = if width <= q.len() - at {
            width
        } else {
            q.len() - at
        };
        let index = match find_bytes(c, q, at, w, search_from) {
            Some(index) => index,
            None => {
                return None;
            },
        };
        proof {
            lemma_first_match_bounds(c@, q@.subrange(at as int, at + w), search_from as int);
        }
        let mut bonus: i128 = if has_previous && previous + 1 == index {
            8
        } else {
            2
        };
        if index == 0 || c[index - 1] == 32 {
            bonus = bonus + 4;
        }
        score = score + bonus;
        previous = index;
        has_previous = true;
        search_from = index + w;
        at = at + w;
    }
    #[verifier::truncate]
    let length = c.len() as i32;
    let eighth: i32 = if length >= 0 {
        length / 8
    } else {
        (-((-(length as i64)) / 8)) as i32
    };
    Some(score - eighth as i128)
}

/// A found match lies inside the haystack.
proof fn lemma_first_match_bounds(hay: Seq<u8>, needle: Seq<u8>, from: int)
    ensures
        first_match(hay, needle, from) matches Some(i) ==> from <= i && i + needle.len()
            <= hay.len(),
    decreases hay.len() + 1 - from,
{
    if !(from < 0 || from + needle.len() > hay.len()) && hay.subrange(from, from + needle.len())
        != needle {
        lemma_first_match_bounds(hay, needle, from + 1);
    }
}

/// The UTF-8 bytes of the lower-case form of `s`.
pub open spec fn lowered(s: Seq<char>) -> Seq<u8> {
    encode_utf8(lowercase(s))
}

/// The items that match `query` (already lower-cased), with their scores,
/// in their original order.
pub open spec fn scored_items(items: Seq<PaletteItem>, query: Seq<u8>) -> Seq<(int, PaletteItem)>
    decreases items.len(),
{
    if items.len() == 0 {
        Seq::empty()
    } else {
        let rest = scored_items(items.drop_last(), query);
        let item = items.last();
        match spec_fuzzy_score(lowered(item.label@), query) {
            Some(score) => rest.push((score, item)),
            None => rest,
        }
    }
}

/// Whether `a` ranks strictly before `b`: a higher score, or an equal score
/// and a label that sorts first.
pub open spec fn ranks_before(a: (int, PaletteItem), b: (int, PaletteItem)) -> bool {
    a.0 > b.0 || (a.0 == b.0 && bytes_less(encode_utf8(a.1.label@), encode_utf8(b.1.label@)))
}

/// Where a stable sort places `x` among the already ranked `sorted`:
/// before the first entry that it ranks before.
pub open spec fn rank_position(sorted: Seq<(int, PaletteItem)>, x: (int, PaletteItem)) -> int
    decreases sorted.len(),
{
    if sorted.len() == 0 {
        0
    } else if ranks_before(x, sorted[0]) {
        0
    } else {
        1 + rank_position(sorted.drop_first(), x)
    }
}

/// `s` sorted by rank, entries of equal rank keeping their order.
pub open spec fn ranked(s: Seq<(int, PaletteItem)>) -> Seq<(int, PaletteItem)>
    decreases s.len(),
{
    if s.len() == 0 {
        Seq::empty()
    } else {
        let r = ranked(s.drop_last());
        r.insert(rank_position(r, s.last()), s.last())
    }
}

/// The items of `items` that match `query`, best first.
pub open spec fn filtered(items: Seq<PaletteItem>, query: Seq<char>) -> Seq<PaletteItem> {
    ranked(scored_items(items, lowered(query))).map_values(|e: (int, PaletteItem)| e.1)
}

proof fn lemma_rank_position_bounds(sorted: Seq<(int, PaletteItem)>, x: (int, PaletteItem))
    ensures
        0 <= rank_position(sorted, x) <= sorted.len(),
    decreases sorted.len(),
{
    if sorted.len() > 0 && !ranks_before(x, sorted[0]) {
        lemma_rank_position_bounds(sorted.drop_first(), x);
    }
}

fn ranks_before_exec(a: &(i128, PaletteItem), b: &(i128, PaletteItem)) -> (r: bool)
    ensures
        r == ranks_before((a.0 as int, a.1), (b.0 as int, b.1)),
{
    a.0 > b.0 || (a.0 == b.0 && less_bytes(
        a.1.label.as_str().as_bytes(),
        b.1.label.as_str().as_bytes(),
    ))
}

/// The scored entries as a sequence of mathematical scores.
pub open spec fn widen(v: Seq<(i128, PaletteItem)>) -> Seq<(int, PaletteItem)> {
    v.map_values(|e: (i128, PaletteItem)| (e.0 as int, e.1))
}

/// Filters the palette's items by `query`, ignoring case, and orders the
/// matches by score, then by label; matches that tie keep their order.
pub fn filter_items(items: &[PaletteItem], query: &str) -> (r: Vec<PaletteItem>)
    ensures
        r@ == filtered(items@, query@),
{
    let lowered_query = to_lowercase(query);
    let q = lowered_query.as_str();
    let mut matches: Vec<(i128, PaletteItem)> = Vec::new();
    let mut i: usize = 0;
    proof {
        assert(items@.take(0) =~= Seq::<PaletteItem>::empty());
    }
    while i < items.len()
        invariant
            i <= items@.len(),
            q.spec_bytes() == lowered(query@),
            widen(matches@) == scored_items(items@.take(i as int), lowered(query@)),
        decreases items@.len() - i,
    {
        let label = to_lowercase(items[i].label.as_str());
        let scored = fuzzy_score(label.as_str(), q);
        proof {
            let t = items@.take(i + 1);
            assert(t.drop_last() =~= items@.take(i as int));
            assert(t.last() == items@[i as int]);
        }
        match scored {
            Some(score) => {
                let ghost before = matches@;
                matches.push((score, items[i].clone()));
                proof {
                    assert(widen(matches@) =~= widen(before).push((score as int, items@[i as int])));
                }
            },
            None => {},
        }
        i = i + 1;
    }
    proof {
        assert(items@.take(i as int) =~= items@);
    }
    let mut sorted: Vec<(i128, PaletteItem)> = Vec::new();
    let mut j: usize = 0;
    proof {
        assert(widen(matches@).take(0) =~= Seq::<(int, PaletteItem)>::empty());
    }
    while j < matches.len()
        invariant
            j <= matches@.len(),
            widen(sorted@) == ranked(widen(matches@).take(j as int)),
        decreases matches@.len() - j,
    {
        let x = (matches[j].0, matches[j].1.clone());
        let mut k: usize = 0;
        let ghost target = widen(sorted@);
        proof {
            assert(target.skip(0) =~= target);
        }
        while k < sorted.len() && !ranks_before_exec(&x, &sorted[k])
            invariant
                k <= sorted@.len(),
                target == widen(sorted@),
                rank_position(target, (x.0 as int, x.1)) == k + rank_position(
                    target.skip(k as int),
                    (x.0 as int, x.1),
                ),
            decreases sorted@.len() - k,
        {
            proof {
                assert(target.skip(k as int)[0] == target[k as int]);
                assert(target.skip(k as int).drop_first() =~= target.skip(k + 1));
            }
            k = k + 1;
        }
        proof {
            if k < sorted@.len() {
                assert(target.skip(k as int)[0] == target[k as int]);
            }
            let t = widen(matches@).take(j + 1);
            assert(t.drop_last() =~= widen(matches@).take(j as int));
            assert(t.last() == (x.0 as int, x.1));
        }
        sorted.insert(k, x);
        proof {
            assert(widen(sorted@) =~= target.insert(k as int, (x.0 as int, x.1)));
        }
        j = j + 1;
    }
    proof {
        assert(widen(matches@).take(j as int) =~= widen(matches@));
    }
    let mut r: Vec<PaletteItem> = Vec::new();
    let mut n: usize = 0;
    while n < sorted.len()
        invariant
            n <= sorted@.len(),
            r@ == widen(sorted@).take(n as int).map_values(|e: (int, PaletteItem)| e.1),
        decreases sorted@.len() - n,
    {
        r.push(sorted[n].1.clone());
        n = n + 1;
        proof {
            assert(r@ =~= widen(sorted@).take(n as int).map_values(|e: (int, PaletteItem)| e.1));
        }
    }
    proof {
        assert(widen(sorted@).take(n as int) =~= widen(sorted@));
    }
    r
}

} // verus!
