//! The session variables that programs in a pane may query and show in a
//! badge: the pane's title, size, directory, shell and host, and the user
//! variables that programs set.
use vstd::prelude::*;
use vstd::string::StrSliceExecFns;
use vstd::utf8::encode_utf8;
use crate::downloads::{base64_standard, byte_len, encode_base64, is_control, string_from_chars, utf8_len};
use crate::keys::is_control_char;
use crate::pty::opt_view;
use crate::text::{decimal, push_decimal, push_str, same_text};
use crate::transfer::{strip_text, stripped};

verus! {

/// The longest value, in bytes, that a variable report or a badge may hold.
pub const MAX_OSC_REPORT_VARIABLE_VALUE_BYTES: usize = 4096;

/// The most user variables one pane keeps.
pub const MAX_OSC_USER_VARS: usize = 64;

/// The user variables of a pane: at most [`MAX_OSC_USER_VARS`] of them,
/// each name once.
pub struct UserVars {
    entries: Vec<(String, String)>,
}

/// Names and values as plain texts.
pub open spec fn pairs_view(entries: Seq<(String, String)>) -> Seq<(Seq<char>, Seq<char>)> {
    entries.map_values(|e: (String, String)| (e.0@, e.1@))
}

/// No name occurs twice.
pub open spec fn distinct_names(pairs: Seq<(Seq<char>, Seq<char>)>) -> bool {
    forall|i: int, j: int| 0 <= i < j < pairs.len() ==> pairs[i].0 != pairs[j].0
}

/// Whether some pair has the name `name`.
pub open spec fn names(pairs: Seq<(Seq<char>, Seq<char>)>, name: Seq<char>) -> bool {
    exists|i: int| 0 <= i < pairs.len() && (#[trigger] pairs[i]).0 == name
}

/// The map from names to values that the pairs hold.
pub open spec fn pairs_map(pairs: Seq<(Seq<char>, Seq<char>)>) -> Map<Seq<char>, Seq<char>> {
    Map::new(
        |name: Seq<char>| names(pairs, name),
        |name: Seq<char>| pairs[choose|i: int| 0 <= i < pairs.len() && (#[trigger] pairs[i]).0 == name].1,
    )
}

proof fn lemma_unique_name(pairs: Seq<(Seq<char>, Seq<char>)>, name: Seq<char>, i: int)
    requires
        distinct_names(pairs),
        0 <= i < pairs.len(),
        pairs[i].0 == name,
    ensures
        pairs_map(pairs).contains_key(name),
        pairs_map(pairs)[name] == pairs[i].1,
{
    assert(names(pairs, name));
    let j = choose|j: int| 0 <= j < pairs.len() && (#[trigger] pairs[j]).0 == name;
    if j != i {
        if j < i {
            assert(pairs[j].0 != pairs[i].0);
        } else {
            assert(pairs[i].0 != pairs[j].0);
        }
    }
}

impl UserVars {
    #[verifier::type_invariant]
    spec fn bounded_and_distinct(self) -> bool {
        &&& self.entries@.len() <= MAX_OSC_USER_VARS
        &&& distinct_names(pairs_view(self.entries@))
    }

    /// How many user variables there are.
    pub closed spec fn size(&self) -> nat {
        self.entries@.len()
    }

    /// No user variables.
    pub fn new() -> (r: UserVars)
        ensures
            r@ == Map::<Seq<char>, Seq<char>>::empty(),
            r.size() == 0,
    {
        let r = UserVars { entries: Vec::new() };
        proof {
            assert(pairs_map(pairs_view(r.entries@)) =~= Map::<Seq<char>, Seq<char>>::empty());
        }
        r
    }

    /// How many user variables there are.
    pub fn len(&self) -> (r: usize)
        ensures
            r == self.size(),
            r <= MAX_OSC_USER_VARS,
    {
        proof {
            use_type_invariant(self);
        }
        self.entries.len()
    }

    fn index_of(&self, name: &str) -> (r: Option<usize>)
        ensures
            match r {
                Some(i) => i < self.entries@.len() && self.entries@[i as int].0@ == name@,
                None => !names(pairs_view(self.entries@), name@),
            },
    {
        let mut i: usize = 0;
        while i < self.entries.len()
            invariant
                i <= self.entries@.len(),
                forall|k: int| 0 <= k < i ==> (#[trigger] pairs_view(self.entries@)[k]).0 != name@,
            decreases self.entries@.len() - i,
        {
            if same_text(self.entries[i].0.as_str(), name) {
                return Some(i);
            }
            i = i + 1;
        }
        None
    }

    /// The value of the user variable `name`, if it is set.
    pub fn get(&self, name: &str) -> (r: Option<&String>)
        ensures
            match r {
                Some(value) => self@.contains_key(name@) && value@ == self@[name@],
                None => !self@.contains_key(name@),
            },
    {
        proof {
            use_type_invariant(self);
        }
        match self.index_of(name) {
            Some(i) => {
                proof {
                    lemma_unique_name(pairs_view(self.entries@), name@, i as int);
                }
                Some(&self.entries[i].1)
            },
            None => None,
        }
    }

    /// Sets the user variable `name` to `value`, when it is already set or
    /// there is room for another; says whether it did.
    pub fn set(&mut self, name: String, value: String) -> (r: bool)
        ensures
            r == (old(self)@.contains_key(name@) || old(self).size() < MAX_OSC_USER_VARS),
            r ==> final(self)@ == old(self)@.insert(name@, value@),
            !r ==> final(self)@ == old(self)@,
            old(self)@.contains_key(name@) ==> final(self).size() == old(self).size(),
            r && !old(self)@.contains_key(name@) ==> final(self).size() == old(self).size() + 1,
            !r ==> final(self).size() == old(self).size(),
    {
        proof {
            use_type_invariant(&*self);
        }
        let ghost before = pairs_view(self.entries@);
        let found = self.index_of(name.as_str());
        let mut entries: Vec<(String, String)> = Vec::new();
        std::mem::swap(&mut entries, &mut self.entries);
        match found {
            Some(i) => {
                proof {
                    lemma_unique_name(before, name@, i as int);
                }
                let ghost new_value = value@;
                let ghost new_name = name@;
                entries.set(i, (name, value));
                let ghost after = pairs_view(entries@);
                proof {
                    assert(after =~= before.update(i as int, (new_name, new_value)));
                    assert forall|a: int, b: int| 0 <= a < b < after.len() implies after[a].0
                        != after[b].0 by {
                        assert(after[a].0 == before[a].0 && after[b].0 == before[b].0);
                    }
                    assert forall|q: Seq<char>| #[trigger]
                        pairs_map(after).contains_key(q) == pairs_map(before).insert(
                            new_name,
                            new_value,
                        ).contains_key(q) by {
                        if names(before, q) {
                            let k = choose|k: int| 0 <= k < before.len() && (#[trigger] before[k]).0 == q;
                            assert(after[k].0 == q);
                        }
                        if names(after, q) {
                            let k = choose|k: int| 0 <= k < after.len() && (#[trigger] after[k]).0 == q;
                            assert(before[k].0 == q);
                        }
                    }
                    assert forall|q: Seq<char>| pairs_map(after).contains_key(q) implies #[trigger]
                        pairs_map(after)[q] == pairs_map(before).insert(new_name, new_value)[q] by {
                        let k = choose|k: int| 0 <= k < after.len() && (#[trigger] after[k]).0 == q;
                        lemma_unique_name(after, q, k);
                        if k != i as int {
                            assert(before[k].0 == q);
                            lemma_unique_name(before, q, k);
                        }
                    }
                    assert(pairs_map(after) =~= pairs_map(before).insert(new_name, new_value));
                }
                std::mem::swap(&mut entries, &mut self.entries);
                true
            },
            None => {
                if entries.len() >= MAX_OSC_USER_VARS {
                    std::mem::swap(&mut entries, &mut self.entries);
                    return false;
                }
                let ghost new_name = name@;
                let ghost new_value = value@;
                entries.push((name, value));
                let ghost after = pairs_view(entries@);
                proof {
                    assert(after =~= before.push((new_name, new_value)));
                    assert forall|a: int, b: int| 0 <= a < b < after.len() implies after[a].0
                        != after[b].0 by {
                        if b == before.len() {
                            assert(after[a] == before[a]);
                        } else {
                            assert(after[a] == before[a] && after[b] == before[b]);
                        }
                    }
                    assert forall|q: Seq<char>| #[trigger]
                        pairs_map(after).contains_key(q) == pairs_map(before).insert(
                            new_name,
                            new_value,
                        ).contains_key(q) by {
                        if names(before, q) {
                            let k = choose|k: int| 0 <= k < before.len() && (#[trigger] before[k]).0 == q;
                            assert(after[k].0 == q);
                        }
                        if q == new_name {
                            assert(after[before.len() as int].0 == q);
                        }
                        if names(after, q) && q != new_name {
                            let k = choose|k: int| 0 <= k < after.len() && (#[trigger] after[k]).0 == q;
                            assert(k < before.len());
                            assert(before[k].0 == q);
                        }
                    }
                    assert forall|q: Seq<char>| pairs_map(after).contains_key(q) implies #[trigger]
                        pairs_map(after)[q] == pairs_map(before).insert(new_name, new_value)[q] by {
                        let k = choose|k: int| 0 <= k < after.len() && (#[trigger] after[k]).0 == q;
                        lemma_unique_name(after, q, k);
                        if k < before.len() {
                            assert(before[k].0 == q);
                            lemma_unique_name(before, q, k);
                        }
                    }
                    assert(pairs_map(after) =~= pairs_map(before).insert(new_name, new_value));
                }
                std::mem::swap(&mut entries, &mut self.entries);
                true
            },
        }
    }
}

impl View for UserVars {
    type V = Map<Seq<char>, Seq<char>>;

    closed spec fn view(&self) -> Map<Seq<char>, Seq<char>> {
        pairs_map(pairs_view(self.entries@))
    }
}

/// What a pane offers to variable queries and badges.
pub struct SessionVariables {
    pub title: String,
    pub icon_title: Option<String>,
    pub columns: u16,
    pub rows: u16,
    /// The working directory the shell reported.
    pub path: Option<String>,
    /// The shell that shell integration named.
    pub shell: Option<String>,
    /// `user@host`, as the shell reported it.
    pub remote_host: Option<String>,
    pub user_vars: UserVars,
    /// The badge that the last badge format gave.
    pub badge: Option<String>,
}

/// The position of the first `c` in `s`.
pub open spec fn first_of(s: Seq<char>, c: char) -> Option<int>
    decreases s.len(),
{
    if s.len() == 0 {
        None
    } else if s.last() == c && first_of(s.drop_last(), c) is None {
        Some(s.len() - 1)
    } else {
        first_of(s.drop_last(), c)
    }
}

/// The user and the host of `user@host`: the parts before and after the
/// first `@`.
pub open spec fn user_and_host(s: Seq<char>) -> Option<(Seq<char>, Seq<char>)> {
    match first_of(s, '@') {
        Some(i) => Some((s.take(i), s.skip(i + 1))),
        None => None,
    }
}

/// The value of the variable `name`, before its length is checked.
pub open spec fn raw_variable(vars: &SessionVariables, name: Seq<char>) -> Option<Seq<char>> {
    if name == "session.name"@ {
        Some(vars.title@)
    } else if name == "session.terminalIconName"@ {
        opt_view(vars.icon_title)
    } else if name == "session.columns"@ {
        Some(decimal(vars.columns as nat))
    } else if name == "session.rows"@ {
        Some(decimal(vars.rows as nat))
    } else if name == "session.path"@ {
        opt_view(vars.path)
    } else if name == "session.shell"@ {
        opt_view(vars.shell)
    } else if name == "session.hostname"@ {
        match vars.remote_host {
            Some(h) => match user_and_host(h@) {
                Some(parts) => Some(parts.1),
                None => None,
            },
            None => None,
        }
    } else if name == "session.username"@ {
        match vars.remote_host {
            Some(h) => match user_and_host(h@) {
                Some(parts) => Some(parts.0),
                None => None,
            },
            None => None,
        }
    } else {
        match stripped(name, "session.user."@) {
            Some(key) => if vars.user_vars@.contains_key(key) {
                Some(vars.user_vars@[key])
            } else {
                None
            },
            None => None,
        }
    }
}

/// The value of the variable `name`: none for an unknown or unset one,
/// and none for one longer than the report limit.
pub open spec fn variable_value(vars: &SessionVariables, name: Seq<char>) -> Option<Seq<char>> {
    match raw_variable(vars, name) {
        Some(v) => if utf8_len(v) <= MAX_OSC_REPORT_VARIABLE_VALUE_BYTES {
            Some(v)
        } else {
            None
        },
        None => None,
    }
}

/// The index of the first `@` in `text`.
fn find_at(text: &str) -> (r: Option<usize>)
    ensures
        match first_of(text@, '@') {
            Some(i) => r == Some(i as usize),
            None => r is None,
        },
        r matches Some(i) ==> i < text@.len(),
{
    let n = text.unicode_len();
    let mut i: usize = 0;
    while i < n
        invariant
            n == text@.len(),
            i <= n,
            first_of(text@.take(i as int), '@') is None,
        decreases n - i,
    {
        proof {
            assert(text@.take(i + 1).drop_last() =~= text@.take(i as int));
        }
        if text.get_char(i) == '@' {
            proof {
                lemma_first_of_prefix(text@, '@', i as int);
            }
            return Some(i);
        }
        i = i + 1;
    }
    proof {
        assert(text@.take(n as int) =~= text@);
    }
    None
}

pub proof fn lemma_first_of_bounds(s: Seq<char>, c: char)
    ensures
        first_of(s, c) matches Some(i) ==> 0 <= i < s.len() && s[i] == c,
    decreases s.len(),
{
    if s.len() > 0 {
        lemma_first_of_bounds(s.drop_last(), c);
    }
}

proof fn lemma_first_of_prefix(s: Seq<char>, c: char, i: int)
    requires
        0 <= i < s.len(),
        s[i] == c,
        first_of(s.take(i), c) is None,
    ensures
        first_of(s, c) == Some(i),
    decreases s.len(),
{
    if s.len() == i + 1 {
        assert(s.drop_last() =~= s.take(i));
    } else {
        assert(s.drop_last().take(i) =~= s.take(i));
        lemma_first_of_prefix(s.drop_last(), c, i);
    }
}

/// A copy of an optional text.
fn copy_opt(o: &Option<String>) -> (r: Option<String>)
    ensures
        opt_view(r) == opt_view(*o),
{
    match o {
        Some(s) => Some(s.clone()),
        None => None,
    }
}

/// The value of `number` in decimal.
fn decimal_text(number: u16) -> (r: String)
    ensures
        r@ == decimal(number as nat),
{
    let mut out = String::new();
    push_decimal(&mut out, number as u128);
    proof {
        assert(out@ =~= decimal(number as nat));
    }
    out
}

impl SessionVariables {
    fn raw_value(&self, name: &str) -> (r: Option<String>)
        ensures
            opt_view(r) == raw_variable(self, name@),
    {
        if same_text(name, "session.name") {
            return Some(self.title.clone());
        }
        if same_text(name, "session.terminalIconName") {
            return copy_opt(&self.icon_title);
        }
        if same_text(name, "session.columns") {
            return Some(decimal_text(self.columns));
        }
        if same_text(name, "session.rows") {
            return Some(decimal_text(self.rows));
        }
        if same_text(name, "session.path") {
            return copy_opt(&self.path);
        }
        if same_text(name, "session.shell") {
            return copy_opt(&self.shell);
        }
        let host_wanted = same_text(name, "session.hostname");
        let user_wanted = same_text(name, "session.username");
        if host_wanted || user_wanted {
            let r = match &self.remote_host {
                None => None,
                Some(h) => match find_at(h.as_str()) {
                    None => None,
                    Some(i) => {
                        proof {
                            lemma_first_of_bounds(h@, '@');
                        }
                        let n = h.as_str().unicode_len();
                        if host_wanted {
                            let host = h.as_str().substring_char(i + 1, n);
                            proof {
                                assert(host@ =~= h@.skip(i + 1));
                            }
                            Some(host.to_owned())
                        } else {
                            let user = h.as_str().substring_char(0, i);
                            proof {
                                assert(user@ =~= h@.take(i as int));
                            }
                            Some(user.to_owned())
                        }
                    },
                },
            };
            return r;
        }
        let r = match strip_text(name, "session.user.") {
            None => None,
            Some(key) => match self.user_vars.get(key) {
                Some(value) => Some(value.clone()),
                None => None,
            },
        };
        proof {
            assert(opt_view(r) == raw_variable(self, name@));
        }
        r
    }

    /// The value of the variable `name`, for a variable query or a badge:
    /// none for an unknown or unset variable, and none for a value longer
    /// than [`MAX_OSC_REPORT_VARIABLE_VALUE_BYTES`].
    pub fn iterm_variable_value(&self, name: &str) -> (r: Option<String>)
        ensures
            opt_view(r) == variable_value(self, name@),
    {
        match self.raw_value(name) {
            Some(value) => {
                if byte_len(value.as_str()) <= MAX_OSC_REPORT_VARIABLE_VALUE_BYTES as u128 {
                    Some(value)
                } else {
                    None
                }
            },
            None => None,
        }
    }
}

/// The answer to a variable query: the value in base64, empty for a
/// variable without one.
pub open spec fn variable_report(value: Option<Seq<char>>) -> Seq<char> {
    "\x1b]1337;ReportVariable="@ + base64_standard(
        encode_utf8(
            match value {
                Some(v) => v,
                None => Seq::empty(),
            },
        ),
    ) + "\x1b\\"@
}

impl SessionVariables {
    /// Answers a query for the variable `name`.
    pub fn iterm_variable_response(&self, name: &str) -> (r: String)
        ensures
            r@ == variable_report(variable_value(self, name@)),
    {
        let value = match self.iterm_variable_value(name) {
            Some(v) => v,
            None => String::new(),
        };
        let mut out = String::new();
        push_str(&mut out, "\x1b]1337;ReportVariable=");
        let encoded = encode_base64(value.as_str().as_bytes());
        push_str(&mut out, encoded.as_str());
        push_str(&mut out, "\x1b\\");
        proof {
            assert(out@ =~= variable_report(variable_value(self, name@)));
        }
        out
    }
}

/// The position of the first `\(` in `s`.
pub open spec fn first_open(s: Seq<char>) -> Option<int>
    decreases s.len(),
{
    if s.len() < 2 {
        None
    } else if first_open(s.drop_last()) is Some {
        first_open(s.drop_last())
    } else if s[s.len() - 2] == '\\' && s.last() == '(' {
        Some(s.len() - 2)
    } else {
        None
    }
}

pub proof fn lemma_first_open_bounds(s: Seq<char>)
    ensures
        first_open(s) matches Some(i) ==> 0 <= i && i + 1 < s.len() && s[i] == '\\' && s[i + 1]
            == '(',
    decreases s.len(),
{
    if s.len() >= 2 {
        lemma_first_open_bounds(s.drop_last());
    }
}

proof fn lemma_first_open_stable(s: Seq<char>, m: int)
    requires
        0 <= m <= s.len(),
        first_open(s.take(m)) is Some,
    ensures
        first_open(s) == first_open(s.take(m)),
    decreases s.len(),
{
    if m == s.len() {
        assert(s.take(m) =~= s);
    } else {
        assert(s.drop_last().take(m) =~= s.take(m));
        lemma_first_open_stable(s.drop_last(), m);
    }
}

proof fn lemma_first_of_stable(s: Seq<char>, c: char, m: int)
    requires
        0 <= m <= s.len(),
        first_of(s.take(m), c) is Some,
    ensures
        first_of(s, c) == first_of(s.take(m), c),
    decreases s.len(),
{
    if m == s.len() {
        assert(s.take(m) =~= s);
    } else {
        assert(s.drop_last().take(m) =~= s.take(m));
        lemma_first_of_stable(s.drop_last(), c, m);
    }
}

/// The position, from `from` on, of the first `\(` in `chars`.
fn find_open_from(chars: &Vec<char>, from: usize) -> (r: Option<usize>)
    requires
        from <= chars@.len(),
    ensures
        match first_open(chars@.skip(from as int)) {
            Some(i) => r == Some((from + i) as usize),
            None => r is None,
        },
{
    let ghost t = chars@.skip(from as int);
    if chars.len() - from < 2 {
        return None;
    }
    let limit = chars.len() - from;
    let mut j: usize = 0;
    proof {
        assert(first_open(t.take(1)) is None);
    }
    while j + 1 < limit
        invariant
            limit == t.len(),
            chars@.len() <= usize::MAX,
            t == chars@.skip(from as int),
            from <= chars@.len(),
            t.len() == chars@.len() - from,
            j + 1 <= t.len(),
            first_open(t.take(j + 1)) is None,
        decreases t.len() - j,
    {
        proof {
            assert(t.take(j + 2).drop_last() =~= t.take(j + 1));
            assert(t.take(j + 2)[j as int] == chars@[from + j]);
            assert(t.take(j + 2).last() == chars@[from + j + 1]);
        }
        if chars[from + j] == '\\' && chars[from + j + 1] == '(' {
            proof {
                lemma_first_open_stable(t, j + 2);
            }
            return Some(from + j);
        }
        j = j + 1;
    }
    proof {
        assert(t.take(j + 1) =~= t);
    }
    None
}

/// The position, from `from` on, of the first `c` in `chars`.
fn find_char_from(chars: &Vec<char>, from: usize, c: char) -> (r: Option<usize>)
    requires
        from <= chars@.len(),
    ensures
        match first_of(chars@.skip(from as int), c) {
            Some(i) => r == Some((from + i) as usize),
            None => r is None,
        },
{
    let ghost t = chars@.skip(from as int);
    let limit = chars.len() - from;
    let mut j: usize = 0;
    proof {
        assert(t.take(0) =~= Seq::<char>::empty());
    }
    while j < limit
        invariant
            limit == t.len(),
            chars@.len() <= usize::MAX,
            t == chars@.skip(from as int),
            from <= chars@.len(),
            t.len() == chars@.len() - from,
            j <= t.len(),
            first_of(t.take(j as int), c) is None,
        decreases t.len() - j,
    {
        proof {
            assert(t.take(j + 1).drop_last() =~= t.take(j as int));
            assert(t.take(j + 1).last() == chars@[from + j]);
        }
        if chars[from + j] == c {
            proof {
                lemma_first_of_stable(t, c, j + 1);
            }
            return Some(from + j);
        }
        j = j + 1;
    }
    proof {
        assert(t.take(j as int) =~= t);
    }
    None
}

/// The characters of `chars` from `a` up to `b`, as a string.
fn text_between(chars: &Vec<char>, a: usize, b: usize) -> (r: String)
    requires
        a <= b <= chars@.len(),
    ensures
        r@ == chars@.subrange(a as int, b as int),
{
    let mut part: Vec<char> = Vec::new();
    let mut k: usize = a;
    while k < b
        invariant
            a <= k <= b <= chars@.len(),
            part@ == chars@.subrange(a as int, k as int),
        decreases b - k,
    {
        part.push(chars[k]);
        proof {
            assert(part@ =~= chars@.subrange(a as int, k + 1));
        }
        k = k + 1;
    }
    string_from_chars(&part)
}

/// The variable a badge names: `user.x` stands for `session.user.x`.
pub open spec fn qualified_name(name: Seq<char>) -> Seq<char> {
    match stripped(name, "user."@) {
        Some(key) => "session.user."@ + key,
        None => name,
    }
}

/// What a badge shows for `\(name)`: the variable's value, or nothing for
/// a name longer than `name_limit` bytes, a name with a control character,
/// or a variable without a value.
pub open spec fn badge_piece(vars: &SessionVariables, name_limit: nat, name: Seq<char>) -> Seq<
    char,
> {
    let q = qualified_name(name);
    if utf8_len(q) <= name_limit && (forall|i: int| 0 <= i < q.len() ==> !is_control_char(
        #[trigger] q[i],
    )) && variable_value(vars, q) is Some {
        variable_value(vars, q)->0
    } else {
        Seq::empty()
    }
}

/// A finished badge, unless it is longer than the report limit.
pub open spec fn bounded_badge(text: Seq<char>) -> Option<Seq<char>> {
    if utf8_len(text) <= MAX_OSC_REPORT_VARIABLE_VALUE_BYTES {
        Some(text)
    } else {
        None
    }
}

/// The badge made of `rendered` followed by `rest` with each `\(name)`
/// replaced by what it shows; none as soon as it grows past the report
/// limit. A `\(` without a closing `)` stays as it is.
pub open spec fn badge_from(
    vars: &SessionVariables,
    name_limit: nat,
    rendered: Seq<char>,
    rest: Seq<char>,
) -> Option<Seq<char>>
    decreases rest.len(),
{
    match first_open(rest) {
        None => bounded_badge(rendered + rest),
        Some(start) => {
            let before = rendered + rest.take(start);
            let expr = rest.skip(start + 2);
            match first_of(expr, ')') {
                None => bounded_badge(before + rest.skip(start)),
                Some(end) => {
                    let with = before + badge_piece(vars, name_limit, expr.take(end));
                    if utf8_len(with) > MAX_OSC_REPORT_VARIABLE_VALUE_BYTES {
                        None
                    } else {
                        proof {
                            lemma_first_open_bounds(rest);
                            lemma_first_of_bounds(expr, ')');
                        }
                        badge_from(vars, name_limit, with, expr.skip(end + 1))
                    }
                },
            }
        },
    }
}

/// The badge that the format `format` gives.
pub open spec fn badge(vars: &SessionVariables, name_limit: nat, format: Seq<char>) -> Option<
    Seq<char>,
> {
    badge_from(vars, name_limit, Seq::empty(), format)
}

impl SessionVariables {
    fn badge_text(&self, name: &str, name_limit: usize) -> (r: String)
        ensures
            r@ == badge_piece(self, name_limit as nat, name@),
    {
        let qualified = match strip_text(name, "user.") {
            Some(key) => {
                let mut q = String::new();
                push_str(&mut q, "session.user.");
                push_str(&mut q, key);
                q
            },
            None => name.to_owned(),
        };
        proof {
            assert(qualified@ =~= qualified_name(name@));
        }
        let q = qualified.as_str();
        if byte_len(q) > name_limit as u128 {
            return String::new();
        }
        let n = q.unicode_len();
        let mut i: usize = 0;
        while i < n
            invariant
                n == q@.len(),
                i <= n,
                q@ == qualified_name(name@),
                utf8_len(q@) <= name_limit,
                forall|k: int| 0 <= k < i ==> !is_control_char(#[trigger] q@[k]),
            decreases n - i,
        {
            let c = q.get_char(i);
            if is_control(c) {
                proof {
                    assert(is_control_char(q@[i as int]));
                }
                return String::new();
            }
            i = i + 1;
        }
        match self.iterm_variable_value(q) {
            Some(value) => value,
            None => String::new(),
        }
    }

    /// The badge that the format `format` gives: each `\(name)` replaced by
    /// the value of the variable it names (`user.x` for `session.user.x`),
    /// or by nothing for a name longer than `name_limit` bytes, one with a
    /// control character, or a variable without a value; none when the
    /// badge grows past [`MAX_OSC_REPORT_VARIABLE_VALUE_BYTES`].
    pub fn interpolate_iterm_badge(&self, format: &str, name_limit: usize) -> (r: Option<String>)
        ensures
            opt_view(r) == badge(self, name_limit as nat, format@),
    {
        let chars = crate::downloads::chars_of(format);
        let mut rendered = String::new();
        let mut pos: usize = 0;
        proof {
            assert(chars@.skip(0) =~= chars@);
            assert(Seq::<char>::empty() + chars@ =~= chars@);
        }
        while pos < chars.len()
            invariant
                pos <= chars@.len(),
                chars@ == format@,
                badge(self, name_limit as nat, format@) == badge_from(
                    self,
                    name_limit as nat,
                    rendered@,
                    chars@.skip(pos as int),
                ),
            ensures
                pos <= chars@.len(),
                badge(self, name_limit as nat, format@) == badge_from(
                    self,
                    name_limit as nat,
                    rendered@,
                    chars@.skip(pos as int),
                ),
                first_open(chars@.skip(pos as int)) is None,
            decreases chars@.len() - pos,
        {
            let ghost rest = chars@.skip(pos as int);
            let start = match find_open_from(&chars, pos) {
                None => {
                    break;
                },
                Some(start) => start,
            };
            proof {
                lemma_first_open_bounds(rest);
            }
            let ghost s = (start - pos) as int;
            let head = text_between(&chars, pos, start);
            push_str(&mut rendered, head.as_str());
            proof {
                assert(head@ =~= rest.take(s));
                assert(chars@.skip(start + 2) =~= rest.skip(s + 2));
            }
            let ghost expr = rest.skip(s + 2);
            match find_char_from(&chars, start + 2, ')') {
                None => {
                    let tail = text_between(&chars, start, chars.len());
                    push_str(&mut rendered, tail.as_str());
                    proof {
                        assert(tail@ =~= rest.skip(s));
                        assert(chars@.skip(chars@.len() as int) =~= Seq::<char>::empty());
                        assert(rendered@ + Seq::<char>::empty() =~= rendered@);
                    }
                    pos = chars.len();
                },
                Some(end) => {
                    proof {
                        lemma_first_of_bounds(expr, ')');
                    }
                    let ghost e = (end - start - 2) as int;
                    let name = text_between(&chars, start + 2, end);
                    proof {
                        assert(name@ =~= expr.take(e));
                    }
                    let piece = self.badge_text(name.as_str(), name_limit);
                    push_str(&mut rendered, piece.as_str());
                    if byte_len(rendered.as_str()) > MAX_OSC_REPORT_VARIABLE_VALUE_BYTES as u128 {
                        return None;
                    }
                    proof {
                        assert(chars@.skip(end + 1) =~= expr.skip(e + 1));
                    }
                    pos = end + 1;
                },
            }
        }
        let ghost rest = chars@.skip(pos as int);
        let tail = text_between(&chars, pos, chars.len());
        push_str(&mut rendered, tail.as_str());
        proof {
            assert(tail@ =~= rest);
        }
        if byte_len(rendered.as_str()) <= MAX_OSC_REPORT_VARIABLE_VALUE_BYTES as u128 {
            Some(rendered)
        } else {
            None
        }
    }

    /// Sets the badge from the format `format`: cleared for an empty
    /// format, otherwise what [`SessionVariables::interpolate_iterm_badge`]
    /// gives. Nothing else changes.
    pub fn apply_iterm_badge_format(&mut self, format: &str, name_limit: usize)
        ensures
            opt_view(final(self).badge) == (if format@.len() == 0 {
                None
            } else {
                badge(old(self), name_limit as nat, format@)
            }),
            final(self).title == old(self).title,
            final(self).icon_title == old(self).icon_title,
            final(self).columns == old(self).columns,
            final(self).rows == old(self).rows,
            final(self).path == old(self).path,
            final(self).shell == old(self).shell,
            final(self).remote_host == old(self).remote_host,
            final(self).user_vars == old(self).user_vars,
    {
        let badge = if format.unicode_len() == 0 {
            None
        } else {
            self.interpolate_iterm_badge(format, name_limit)
        };
        self.badge = badge;
    }
}

} // verus!
