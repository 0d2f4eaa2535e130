//! The interactive mode of `imag-counter`: keys bound to counters or to
//! `quit`, and what one line of input does.

use vstd::prelude::*;
use crate::text::{chars_of, str_eq};

verus! {

/// What a key is bound to: a counter (by name) or a function (by name; the
/// only function is `quit`).
#[derive(Debug, PartialEq, Eq)]
pub enum Binding {
    Counter(String),
    Function(String),
}

pub enum SBinding {
    Counter(Seq<char>),
    Function(Seq<char>),
}

impl View for Binding {
    type V = SBinding;

    open spec fn view(&self) -> SBinding {
        match self {
            Binding::Counter(n) => SBinding::Counter(n@),
            Binding::Function(n) => SBinding::Function(n@),
        }
    }
}

/// The function bound to a key by default: it ends the interactive mode.
pub fn quit() -> (res: bool)
    ensures
        !res,
{
    false
}

pub open spec fn bindings_map(defs: Seq<(char, SBinding)>) -> Map<char, SBinding>
    decreases defs.len(),
{
    if defs.len() == 0 {
        Map::empty()
    } else {
        bindings_map(defs.drop_last()).insert(defs.last().0, defs.last().1)
    }
}

proof fn lemma_bindings_map_lookup(defs: Seq<(char, SBinding)>, key: char, i: int)
    requires
        -1 <= i < defs.len(),
        forall|j: int| i < j < defs.len() ==> (#[trigger] defs[j]).0 != key,
    ensures
        i >= 0 && defs[i].0 == key ==> bindings_map(defs).contains_key(key) && bindings_map(
            defs,
        )[key] == defs[i].1,
        i == -1 ==> !bindings_map(defs).contains_key(key),
    decreases defs.len(),
{
    if defs.len() > 0 {
        if i < defs.len() - 1 {
            assert forall|j: int| i < j < defs.drop_last().len() implies (
            #[trigger] defs.drop_last()[j]).0 != key by {
                assert(defs.drop_last()[j] == defs[j]);
            }
            lemma_bindings_map_lookup(defs.drop_last(), key, i);
            if i >= 0 {
                assert(defs.drop_last()[i] == defs[i]);
            }
        }
    }
}

/// Every binding of the map is one of the definitions.
proof fn lemma_bindings_map_values(defs: Seq<(char, SBinding)>, key: char)
    requires
        bindings_map(defs).contains_key(key),
    ensures
        exists|j: int| 0 <= j < defs.len() && (#[trigger] defs[j]) == (key, bindings_map(defs)[key]),
    decreases defs.len(),
{
    if defs.last().0 == key {
        assert(defs[defs.len() - 1] == (key, bindings_map(defs)[key]));
    } else {
        lemma_bindings_map_values(defs.drop_last(), key);
        let j = choose|j: int|
            0 <= j < defs.drop_last().len() && (#[trigger] defs.drop_last()[j]) == (
                key,
                bindings_map(defs.drop_last())[key],
            );
        assert(defs[j] == defs.drop_last()[j]);
    }
}

/// Keys and what they are bound to; binding a key again replaces its
/// binding.
pub struct Bindings {
    defs: Vec<(char, Binding)>,
}

pub open spec fn binding_defs_view(defs: Seq<(char, Binding)>) -> Seq<(char, SBinding)> {
    defs.map_values(|d: (char, Binding)| (d.0, d.1@))
}

impl View for Bindings {
    type V = Map<char, SBinding>;

    closed spec fn view(&self) -> Map<char, SBinding> {
        bindings_map(binding_defs_view(self.defs@))
    }
}

/// Some key is bound to the function `quit`.
pub open spec fn spec_has_quit_binding(m: Map<char, SBinding>) -> bool {
    exists|k: char| m.contains_key(k) && #[trigger] m[k] == SBinding::Function("quit"@)
}

impl Bindings {
    pub fn new() -> (res: Self)
        ensures
            res@ == Map::<char, SBinding>::empty(),
    {
        let res = Bindings { defs: Vec::new() };
        assert(binding_defs_view(res.defs@) =~= Seq::empty());
        res
    }

    pub fn insert(&mut self, key: char, binding: Binding)
        ensures
            final(self)@ == old(self)@.insert(key, binding@),
    {
        let ghost before = binding_defs_view(self.defs@);
        let ghost d = (key, binding@);
        self.defs.push((key, binding));
        assert(binding_defs_view(self.defs@).drop_last() =~= before);
        assert(binding_defs_view(self.defs@).last() == d);
    }

    pub fn get(&self, key: char) -> (res: Option<&Binding>)
        ensures
            match res {
                Some(b) => self@.contains_key(key) && self@[key] == b@,
                None => !self@.contains_key(key),
            },
    {
        let ghost dv = binding_defs_view(self.defs@);
        let mut i = self.defs.len();
        while i > 0
            invariant
                i <= self.defs.len(),
                dv == binding_defs_view(self.defs@),
                forall|j: int| i <= j < dv.len() ==> (#[trigger] dv[j]).0 != key,
            decreases i,
        {
            let d = &self.defs[i - 1];
            assert(dv[i - 1] == (d.0, d.1@));
            if d.0 == key {
                proof {
                    lemma_bindings_map_lookup(dv, key, i - 1);
                }
                return Some(&d.1);
            }
            i = i - 1;
        }
        proof {
            lemma_bindings_map_lookup(dv, key, -1);
        }
        None
    }

    /// Whether some key is bound to `quit`.
    pub fn has_quit_binding(&self) -> (res: bool)
        ensures
            res == spec_has_quit_binding(self@),
    {
        let ghost dv = binding_defs_view(self.defs@);
        let mut i: usize = 0;
        while i < self.defs.len()
            invariant
                i <= self.defs.len(),
                dv == binding_defs_view(self.defs@),
                forall|j: int|
                    0 <= j < i ==> self@.contains_key(#[trigger] dv[j].0) ==> self@[dv[j].0]
                        != SBinding::Function("quit"@),
            decreases self.defs.len() - i,
        {
            let key = self.defs[i].0;
            assert(dv[i as int].0 == key);
            match self.get(key) {
                Some(Binding::Function(name)) => {
                    if str_eq(name.as_str(), "quit") {
                        return true;
                    }
                },
                _ => {},
            }
            i = i + 1;
        }
        proof {
            if spec_has_quit_binding(self@) {
                let k = choose|k: char|
                    self@.contains_key(k) && #[trigger] self@[k] == SBinding::Function("quit"@);
                lemma_bindings_map_values(dv, k);
                let j = choose|j: int| 0 <= j < dv.len() && (#[trigger] dv[j]) == (k, self@[k]);
                assert(dv[j].0 == k);
            }
        }
        false
    }

    /// Binds `q` to `quit` where no key is bound to it.
    pub fn ensure_quit_binding(&mut self)
        ensures
            spec_has_quit_binding(final(self)@),
            spec_has_quit_binding(old(self)@) ==> final(self)@ == old(self)@,
            !spec_has_quit_binding(old(self)@) ==> final(self)@ == old(self)@.insert(
                'q',
                SBinding::Function("quit"@),
            ),
    {
        if !self.has_quit_binding() {
            let name = "quit".to_owned();
            self.insert('q', Binding::Function(name));
            assert(self@.contains_key('q'));
            assert(self@['q'] == SBinding::Function("quit"@));
        }
    }
}

/// What one character of input does to a counter: the counter bound to
/// `key` goes up or down by one.
#[derive(Debug, Clone, Copy, PartialEq, Eq, Structural)]
pub struct CounterAction {
    pub key: char,
    pub increment: bool,
}

/// The change of the counter bound to `key`.
pub open spec fn counter_action(key: char, increment: bool) -> CounterAction {
    CounterAction { key, increment }
}

/// The effect of the characters `cs` of a line, in order: a character bound
/// to a counter changes it, a character bound to `quit` ends the interactive
/// mode and the rest of the line is ignored, other characters do nothing.
/// The result holds the changes and whether the mode goes on.
pub open spec fn spec_line_effect(m: Map<char, SBinding>, cs: Seq<char>, increment: bool) -> (Seq<
    CounterAction,
>, bool)
    decreases cs.len(),
{
    if cs.len() == 0 {
        (Seq::empty(), true)
    } else {
        let rest = spec_line_effect(m, cs.drop_first(), increment);
        if m.contains_key(cs[0]) {
            match m[cs[0]] {
                SBinding::Counter(_) => (
                    seq![counter_action(cs[0], increment)] + rest.0,
                    rest.1,
                ),
                SBinding::Function(_) => (Seq::empty(), false),
            }
        } else {
            rest
        }
    }
}

/// What a line of input does: the counters change up, or down if the line
/// starts with `-`; an empty line changes nothing.
pub open spec fn spec_interactive_step(m: Map<char, SBinding>, line: Seq<char>) -> (Seq<
    CounterAction,
>, bool) {
    if line.len() == 0 {
        (Seq::empty(), true)
    } else {
        spec_line_effect(m, line, line[0] != '-')
    }
}

proof fn lemma_push_then_append(before: Seq<CounterAction>, a: CounterAction, r: Seq<CounterAction>)
    ensures
        before.push(a) + r == before + (seq![a] + r),
{
    assert(before.push(a) + r =~= before + (seq![a] + r));
}

/// The counter changes a line of input makes, and whether the interactive
/// mode goes on after it.
pub fn interactive_step(bindings: &Bindings, line: &str) -> (res: (Vec<CounterAction>, bool))
    ensures
        (res.0@, res.1) == spec_interactive_step(bindings@, line@),
{
    let cs = chars_of(line);
    if cs.len() == 0 {
        return (Vec::new(), true);
    }
    let increment = cs[0] != '-';
    let mut actions: Vec<CounterAction> = Vec::new();
    let mut i: usize = 0;
    assert(cs@.skip(0) =~= cs@);
    assert(actions@ + spec_line_effect(bindings@, cs@, increment).0 =~= spec_line_effect(
        bindings@,
        cs@,
        increment,
    ).0);
    while i < cs.len()
        invariant
            i <= cs.len(),
            cs@ == line@,
            cs@.len() > 0,
            increment == (cs@[0] != '-'),
            spec_line_effect(bindings@, cs@, increment) == (
                actions@ + spec_line_effect(bindings@, cs@.skip(i as int), increment).0,
                spec_line_effect(bindings@, cs@.skip(i as int), increment).1,
            ),
        decreases cs.len() - i,
    {
        let c = cs[i];
        let ghost rest = cs@.skip(i as int);
        assert(rest.drop_first() =~= cs@.skip(i + 1));
        assert(rest[0] == c);
        match bindings.get(c) {
            Some(Binding::Counter(_)) => {
                let ghost before = actions@;
                let act = CounterAction { key: c, increment };
                let ghost r = spec_line_effect(bindings@, cs@.skip(i + 1), increment).0;
                actions.push(act);
                proof {
                    lemma_push_then_append(before, act, r);
                }
            },
            Some(Binding::Function(_)) => {
                assert(actions@ + Seq::<CounterAction>::empty() =~= actions@);
                return (actions, false);
            },
            None => {},
        }
        i = i + 1;
    }
    assert(cs@.skip(cs.len() as int) =~= Seq::<char>::empty());
    assert(actions@ + Seq::<CounterAction>::empty() =~= actions@);
    (actions, true)
}

/// The binding a key-value spec `key=value` of the command line sets up:
/// the key's character, bound to `quit` if the value is `quit` and to the
/// counter named by the value otherwise; `None` where the key is not a
/// single character (the tool then stops with status 1).
pub fn binding_for(key: &str, value: String) -> (res: Option<(char, Binding)>)
    ensures
        res is None <==> key@.len() != 1,
        res matches Some((c, b)) ==> c == key@[0] && (if value@ == "quit"@ {
            b@ == SBinding::Function("quit"@)
        } else {
            b@ == SBinding::Counter(value@)
        }),
{
    let cs = chars_of(key);
    if cs.len() != 1 {
        return None;
    }
    if str_eq(value.as_str(), "quit") {
        Some((cs[0], Binding::Function("quit".to_owned())))
    } else {
        Some((cs[0], Binding::Counter(value)))
    }
}

} // verus!

verus! {

/// A line whose first character is bound to a function ends the interactive
/// mode without changing any counter.
pub proof fn law_function_key_first_ends(m: Map<char, SBinding>, line: Seq<char>)
    requires
        line.len() > 0,
        m.contains_key(line[0]),
        m[line[0]] is Function,
    ensures
        spec_interactive_step(m, line) == (Seq::<CounterAction>::empty(), false),
{
}

/// A line none of whose characters is bound changes nothing, and the
/// interactive mode goes on.
pub proof fn law_unbound_line_continues(m: Map<char, SBinding>, line: Seq<char>)
    requires
        forall|i: int| 0 <= i < line.len() ==> !m.contains_key(#[trigger] line[i]),
    ensures
        spec_interactive_step(m, line) == (Seq::<CounterAction>::empty(), true),
{
    if line.len() > 0 {
        lemma_unbound_effect(m, line, line[0] != '-');
    }
}

proof fn lemma_unbound_effect(m: Map<char, SBinding>, cs: Seq<char>, increment: bool)
    requires
        forall|i: int| 0 <= i < cs.len() ==> !m.contains_key(#[trigger] cs[i]),
    ensures
        spec_line_effect(m, cs, increment) == (Seq::<CounterAction>::empty(), true),
    decreases cs.len(),
{
    if cs.len() > 0 {
        assert(!m.contains_key(cs[0]));
        assert forall|i: int| 0 <= i < cs.drop_first().len() implies !m.contains_key(
            #[trigger] cs.drop_first()[i],
        ) by {
            assert(cs.drop_first()[i] == cs[i + 1]);
        }
        lemma_unbound_effect(m, cs.drop_first(), increment);
    }
}

/// A line all of whose characters are bound to counters changes the counter
/// of each character once, in order: up, or down where the line starts with
/// `-`; and the interactive mode goes on.
pub proof fn law_counter_line(m: Map<char, SBinding>, line: Seq<char>)
    requires
        line.len() > 0,
        forall|i: int|
            0 <= i < line.len() ==> m.contains_key(#[trigger] line[i]) && m[line[i]] is Counter,
    ensures
        spec_interactive_step(m, line).1,
        spec_interactive_step(m, line).0.len() == line.len(),
        forall|i: int|
            0 <= i < line.len() ==> #[trigger] spec_interactive_step(m, line).0[i]
                == counter_action(line[i], line[0] != '-'),
{
    lemma_counter_effect(m, line, line[0] != '-');
}

proof fn lemma_counter_effect(m: Map<char, SBinding>, cs: Seq<char>, increment: bool)
    requires
        forall|i: int|
            0 <= i < cs.len() ==> m.contains_key(#[trigger] cs[i]) && m[cs[i]] is Counter,
    ensures
        spec_line_effect(m, cs, increment).1,
        spec_line_effect(m, cs, increment).0.len() == cs.len(),
        forall|i: int|
            0 <= i < cs.len() ==> #[trigger] spec_line_effect(m, cs, increment).0[i]
                == counter_action(cs[i], increment),
    decreases cs.len(),
{
    if cs.len() > 0 {
        assert(m.contains_key(cs[0]) && m[cs[0]] is Counter);
        assert forall|i: int| 0 <= i < cs.drop_first().len() implies m.contains_key(
            #[trigger] cs.drop_first()[i],
        ) && m[cs.drop_first()[i]] is Counter by {
            assert(cs.drop_first()[i] == cs[i + 1]);
        }
        lemma_counter_effect(m, cs.drop_first(), increment);
        let rest = spec_line_effect(m, cs.drop_first(), increment);
        let head = seq![counter_action(cs[0], increment)];
        assert(spec_line_effect(m, cs, increment) == (head + rest.0, rest.1));
        assert forall|i: int| 0 <= i < cs.len() implies #[trigger] spec_line_effect(
            m,
            cs,
            increment,
        ).0[i] == counter_action(cs[i], increment) by {
            if i > 0 {
                assert((head + rest.0)[i] == rest.0[i - 1]);
                assert(cs.drop_first()[i - 1] == cs[i]);
            }
        }
    }
}

/// After `ensure_quit_binding` some key is bound to `quit`, and a line that
/// starts with that key ends the interactive mode.
pub proof fn law_quit_reachable(m: Map<char, SBinding>)
    requires
        spec_has_quit_binding(m),
    ensures
        exists|k: char|
            m.contains_key(k) && #[trigger] spec_interactive_step(m, seq![k]) == (
            Seq::<CounterAction>::empty(),
            false,
        ),
{
    let k = choose|k: char| m.contains_key(k) && #[trigger] m[k] == SBinding::Function("quit"@);
    law_function_key_first_ends(m, seq![k]);
}

/// A character bound to nothing changes nothing and does not end the line:
/// a line with it behaves as the line without it.
pub proof fn law_unbound_char_skipped(
    m: Map<char, SBinding>,
    u: Seq<char>,
    c: char,
    w: Seq<char>,
    increment: bool,
)
    requires
        !m.contains_key(c),
    ensures
        spec_line_effect(m, u + seq![c] + w, increment) == spec_line_effect(m, u + w, increment),
    decreases u.len(),
{
    if u.len() == 0 {
        assert(u + seq![c] + w =~= seq![c] + w);
        assert((seq![c] + w).drop_first() =~= w);
        assert(u + w =~= w);
    } else {
        law_unbound_char_skipped(m, u.drop_first(), c, w, increment);
        assert((u + seq![c] + w).drop_first() =~= u.drop_first() + seq![c] + w);
        assert((u + w).drop_first() =~= u.drop_first() + w);
        assert((u + seq![c] + w)[0] == u[0]);
        assert((u + w)[0] == u[0]);
    }
}

/// In interactive mode, a character bound to nothing after the first one of
/// a line changes nothing: every bound counter of the line still changes.
pub proof fn law_interactive_skips_unbound(m: Map<char, SBinding>, u: Seq<char>, c: char, w: Seq<char>)
    requires
        !m.contains_key(c),
        u.len() > 0,
    ensures
        spec_interactive_step(m, u + seq![c] + w) == spec_interactive_step(m, u + w),
{
    assert((u + seq![c] + w)[0] == u[0]);
    assert((u + w)[0] == u[0]);
    law_unbound_char_skipped(m, u, c, w, u[0] != '-');
}

/// A character bound to a counter, on a line without function keys, changes
/// that counter: up, or down where the line starts with `-`.
pub proof fn law_bound_counter_counts(m: Map<char, SBinding>, u: Seq<char>, c: char, w: Seq<char>, increment: bool)
    requires
        m.contains_key(c),
        m[c] is Counter,
        forall|i: int| 0 <= i < u.len() && m.contains_key(#[trigger] u[i]) ==> m[u[i]] is Counter,
    ensures
        spec_line_effect(m, u + seq![c] + w, increment).0.contains(counter_action(c, increment)),
    decreases u.len(),
{
    if u.len() == 0 {
        assert(u + seq![c] + w =~= seq![c] + w);
        assert((seq![c] + w).drop_first() =~= w);
        let r = spec_line_effect(m, u + seq![c] + w, increment);
        assert(r.0[0] == counter_action(c, increment));
    } else {
        assert forall|i: int| 0 <= i < u.drop_first().len() && m.contains_key(
            #[trigger] u.drop_first()[i],
        ) implies m[u.drop_first()[i]] is Counter by {
            assert(u.drop_first()[i] == u[i + 1]);
        }
        law_bound_counter_counts(m, u.drop_first(), c, w, increment);
        assert((u + seq![c] + w).drop_first() =~= u.drop_first() + seq![c] + w);
        assert((u + seq![c] + w)[0] == u[0]);
        let rest = spec_line_effect(m, u.drop_first() + seq![c] + w, increment);
        let a = counter_action(c, increment);
        let k = choose|k: int| 0 <= k < rest.0.len() && rest.0[k] == a;
        if m.contains_key(u[0]) {
            let r = spec_line_effect(m, u + seq![c] + w, increment);
            assert(r.0[k + 1] == a);
        }
    }
}

} // verus!
