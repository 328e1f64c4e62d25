use vstd::prelude::*;

use crate::debug::{type_debug_form, value_debug_form};
use crate::option::{opt_view, value_fits, NixOption, OptionType, OptionValue, ValueView};
use crate::string_map::{distinct_keys, entry_keys, seq_lookup, seq_with, seq_without, StringMap};
use crate::text::{owned, views};

verus! {

/// A single reversible edit.
#[derive(Debug, Clone)]
pub struct Edit {
    pub option_name: String,
    /// The pending edit the option had before: `None` where it had none,
    /// `Some(None)` where it was reset to its default.
    pub before: Option<Option<OptionValue>>,
    pub after: Option<OptionValue>,
}

/// What an edit is: the option it changed, the pending edit it had before
/// (`None` where it had none), and the value it was given (`None` being a
/// reset to the default).
pub struct EditView {
    pub option_name: Seq<char>,
    pub before: Option<Option<ValueView>>,
    pub after: Option<ValueView>,
}

/// The view of an optional pending edit.
pub open spec fn edit_view(e: Option<Option<OptionValue>>) -> Option<Option<ValueView>> {
    match e {
        Some(p) => Some(opt_view(p)),
        None => None,
    }
}

impl View for Edit {
    type V = EditView;

    open spec fn view(&self) -> EditView {
        EditView { option_name: self.option_name@, before: edit_view(self.before), after: opt_view(self.after) }
    }
}

/// Why an edit was refused.
#[derive(Debug, PartialEq)]
pub enum StateError {
    /// The value is not of the option's type.
    TypeMismatch {
        /// The option's name.
        option: String,
        /// "type mismatch: option '…' expects …, got …", with the type and the
        /// value in their debug form.
        message: String,
    },
}

/// The message of a refused edit.
pub open spec fn mismatch_message(name: Seq<char>, t: OptionType, v: OptionValue) -> Seq<char> {
    "type mismatch: option '"@ + name + "' expects "@ + type_debug_form(t@) + ", got "@ + value_debug_form(v@)
}

impl StateError {
    /// The text of the error.
    pub fn message(&self) -> (r: String)
        ensures
            match self {
                StateError::TypeMismatch { message, .. } => r@ == message@,
            },
    {
        match self {
            StateError::TypeMismatch { message, .. } => message.clone(),
        }
    }
}

/// The entries of a pending map, each value taken by its view.
pub open spec fn pending_view(s: Seq<(Seq<char>, Option<OptionValue>)>) -> Seq<(Seq<char>, Option<ValueView>)> {
    s.map_values(|e: (Seq<char>, Option<OptionValue>)| (e.0, opt_view(e.1)))
}

/// A copy of an optional value with the same view.
pub fn duplicate_opt(v: &Option<OptionValue>) -> (r: Option<OptionValue>)
    ensures
        opt_view(r) == opt_view(*v),
{
    match v {
        Some(x) => Some(x.duplicate()),
        None => None,
    }
}

/// Tracks all current values and pending changes for a configuration session.
///
/// Invariant: `current` always reflects the baseline values loaded from disk.
/// `pending` overlays edits the user has made but not yet saved.
/// `undo_stack` lets us walk backward through edits.
#[derive(Debug)]
pub struct ConfigState {
    /// Values as loaded from flake.nix / the running system.
    current: StringMap<OptionValue>,
    /// User's unsaved edits (option name → new value, or None = "reset to default").
    pending: StringMap<Option<OptionValue>>,
    /// Undo history — most recent last.
    undo_stack: Vec<Edit>,
    /// Maximum undo depth.
    max_undo: usize,
}

/// The number of edits that the undo history keeps.
pub const MAX_UNDO: usize = 100;

impl ConfigState {
    #[verifier::type_invariant]
    spec fn inv(self) -> bool {
        self.max_undo == MAX_UNDO
    }

    /// The baseline value of `k`.
    pub closed spec fn base(self, k: Seq<char>) -> Option<ValueView> {
        opt_view(self.current.lookup(k))
    }

    /// The pending edits, in the order in which their options were first edited:
    /// each option with its new value, `None` meaning "reset to default".
    pub closed spec fn pending(self) -> Seq<(Seq<char>, Option<ValueView>)> {
        pending_view(self.pending@)
    }

    /// The undo history, oldest first.
    pub closed spec fn history(self) -> Seq<EditView> {
        self.undo_stack@.map_values(|e: Edit| e@)
    }

    /// The names with a pending edit, in order.
    pub open spec fn pending_names(self) -> Seq<Seq<char>> {
        entry_keys(self.pending())
    }

    /// The pending edit of `k`.
    pub open spec fn edit_of(self, k: Seq<char>) -> Option<Option<ValueView>> {
        seq_lookup(self.pending(), k)
    }

    /// No option has two pending edits.
    pub open spec fn valid(self) -> bool {
        distinct_keys(self.pending_names())
    }

    /// The effective value of `k`: its pending edit where it has one, else its
    /// baseline value.
    pub open spec fn value_of(self, k: Seq<char>) -> Option<ValueView> {
        match self.edit_of(k) {
            Some(p) => p,
            None => self.base(k),
        }
    }
}


/// `p` with `k` mapped to `v`: an existing entry keeps its place, a new one goes last.
pub open spec fn pending_with(p: Seq<(Seq<char>, Option<ValueView>)>, k: Seq<char>, v: Option<ValueView>) -> Seq<(Seq<char>, Option<ValueView>)> {
    seq_with(p, k, v)
}

/// `p` without the entry of `k`.
pub open spec fn pending_without(p: Seq<(Seq<char>, Option<ValueView>)>, k: Seq<char>) -> Seq<(Seq<char>, Option<ValueView>)> {
    seq_without(p, k)
}

/// The history with room made for one more edit: the oldest edit goes once the
/// history holds `MAX_UNDO` edits.
pub open spec fn with_room(h: Seq<EditView>) -> Seq<EditView> {
    if h.len() >= MAX_UNDO {
        h.drop_first()
    } else {
        h
    }
}

/// The value a `set` offers is accepted: no value, or one of the option's type.
pub open spec fn accepted(v: Option<OptionValue>, t: OptionType) -> bool {
    match v {
        Some(x) => value_fits(x, t),
        None => true,
    }
}

/// Two states have the same baseline values.
pub open spec fn same_base(a: ConfigState, b: ConfigState) -> bool {
    forall|k: Seq<char>| #[trigger] a.base(k) == b.base(k)
}

/// Two states are alike: same baseline, same pending edits, same history.
pub open spec fn same_state(a: ConfigState, b: ConfigState) -> bool {
    &&& same_base(a, b)
    &&& a.pending() == b.pending()
    &&& a.history() == b.history()
}

/// What an accepted `set` of `name` to `v` makes of `s0`.
pub open spec fn set_post(s0: ConfigState, s1: ConfigState, name: Seq<char>, v: Option<ValueView>) -> bool {
    &&& same_base(s0, s1)
    &&& s1.pending() == pending_with(s0.pending(), name, v)
    &&& s1.history() == with_room(s0.history()).push(EditView { option_name: name, before: s0.edit_of(name), after: v })
}

/// What `undo` makes of `s0`, returning `r`.
pub open spec fn undo_post(s0: ConfigState, s1: ConfigState, r: Option<Seq<char>>) -> bool {
    if s0.history().len() == 0 {
        r is None && same_state(s0, s1)
    } else {
        let e = s0.history().last();
        &&& r == Some(e.option_name)
        &&& same_base(s0, s1)
        &&& s1.history() == s0.history().drop_last()
        &&& s1.pending() == match e.before {
            Some(p) => pending_with(s0.pending(), e.option_name, p),
            None => pending_without(s0.pending(), e.option_name),
        }
    }
}

impl ConfigState {
    proof fn lemma_names(self)
        ensures
            self.pending_names() == self.pending.keys(),
            forall|k: Seq<char>| #[trigger] self.edit_of(k) == match self.pending.lookup(k) {
                Some(p) => Some(opt_view(p)),
                None => None::<Option<ValueView>>,
            },
            forall|k: Seq<char>| #[trigger] self.base(k) == opt_view(self.current.lookup(k)),
            self.pending.wf() ==> self.valid(),
    {
        assert(self.pending_names() =~= self.pending.keys());
        assert forall|k: Seq<char>| #[trigger] self.edit_of(k) == match self.pending.lookup(k) {
            Some(p) => Some(opt_view(p)),
            None => None::<Option<ValueView>>,
        } by {
            if let Some(i) = self.pending.index_of(k) {
                crate::string_map::lemma_position_from(self.pending.keys(), k, 0);
                assert(self.pending()[i].1 == opt_view(self.pending@[i].1));
            }
        }
    }

    pub fn new() -> (r: Self)
        ensures
            forall|k: Seq<char>| #[trigger] r.base(k) is None,
            r.pending().len() == 0,
            r.history().len() == 0,
            r.valid(),
    {
        let r = ConfigState { current: StringMap::new(), pending: StringMap::new(), undo_stack: Vec::new(), max_undo: MAX_UNDO };
        proof {
            assert forall|k: Seq<char>| #[trigger] r.base(k) is None by {
                crate::string_map::lemma_position_from(r.current.keys(), k, 0);
            }
            r.lemma_names();
        }
        r
    }

    /// Load baseline values (called after parsing flake.nix).
    pub fn load_current(&mut self, values: StringMap<OptionValue>)
        ensures
            forall|k: Seq<char>| #[trigger] final(self).base(k) == opt_view(values.lookup(k)),
            forall|k: Seq<char>| #[trigger] final(self).value_of(k) == opt_view(values.lookup(k)),
            final(self).pending().len() == 0,
            final(self).history().len() == 0,
            final(self).valid(),
    {
        proof { use_type_invariant(&*self); }
        self.current = values;
        self.pending = StringMap::new();
        self.undo_stack = Vec::new();
        proof { use_type_invariant(&*self); use_type_invariant(&self.pending); self.lemma_names(); }
    }

    /// Return the effective value for an option: pending overrides current.
    pub fn get(&self, name: &str) -> (r: Option<&OptionValue>)
        ensures
            match r {
                Some(v) => self.value_of(name@) == Some(v@),
                None => self.value_of(name@) is None,
            },
    {
        proof { self.lemma_names(); }
        if let Some(pending) = self.pending.get(name) {
            pending.as_ref()
        } else {
            self.current.get(name)
        }
    }

    /// Apply a user edit, recording the previous value for undo.
    pub fn set(&mut self, option: &NixOption, new_value: Option<OptionValue>) -> (r: Result<(), StateError>)
        ensures
            r is Ok <==> accepted(new_value, option.option_type),
            r is Ok ==> set_post(*old(self), *final(self), option.name@, opt_view(new_value)),
            r is Err ==> same_state(*old(self), *final(self)),
            final(self).valid(),
            r matches Err(StateError::TypeMismatch { option: o, message }) ==> {
                &&& o@ == option.name@
                &&& message@ == mismatch_message(option.name@, option.option_type, new_value.unwrap())
            },
    {
        proof { use_type_invariant(&*self); }
        // Type-check if a value is provided.
        if let Some(val) = &new_value {
            if !val.type_matches(&option.option_type) {
                let mut message = owned("type mismatch: option '");
                message.append(option.name.as_str());
                message.append("' expects ");
                let t = option.option_type.debug_text();
                message.append(t.as_str());
                message.append(", got ");
                let v = val.debug_text();
                message.append(v.as_str());
                proof { use_type_invariant(&self.pending); self.lemma_names(); }
                return Err(StateError::TypeMismatch { option: option.name.clone(), message });
            }
        }
        proof { self.lemma_names(); }
        let before = match self.pending.get(option.name.as_str()) {
            Some(p) => Some(duplicate_opt(p)),
            None => None,
        };
        let after = duplicate_opt(&new_value);
        let ghost nv = opt_view(new_value);
        let ghost p0 = self.pending@;
        let mut pending: StringMap<Option<OptionValue>> = StringMap::new();
        std::mem::swap(&mut pending, &mut self.pending);
        proof { use_type_invariant(&pending); pending.lemma_index_of(option.name@); }
        pending.insert(option.name.clone(), new_value);
        proof {
            assert(pending_view(p0).map_values(|e: (Seq<char>, Option<ValueView>)| e.0) =~= p0.map_values(|e: (Seq<char>, Option<OptionValue>)| e.0));
            assert(pending_view(pending@) =~= pending_with(pending_view(p0), option.name@, nv));
        }
        self.pending = pending;
        let edit = Edit { option_name: option.name.clone(), before, after };
        let mut stack: Vec<Edit> = Vec::new();
        std::mem::swap(&mut stack, &mut self.undo_stack);
        let ghost h0 = stack@;
        if stack.len() >= self.max_undo {
            stack.remove(0);
            assert(stack@ =~= h0.drop_first());
        }
        stack.push(edit);
        proof {
            assert(stack@.map_values(|e: Edit| e@) =~= with_room(h0.map_values(|e: Edit| e@)).push(edit@));
        }
        self.undo_stack = stack;
        proof { use_type_invariant(&*self); use_type_invariant(&self.pending); self.lemma_names(); }
        Ok(())
    }

    /// Undo the last edit.
    pub fn undo(&mut self) -> (r: Option<String>)
        ensures
            undo_post(*old(self), *final(self), match r {
                Some(n) => Some(n@),
                None => None,
            }),
            final(self).valid(),
    {
        proof { use_type_invariant(&*self); }
        let mut stack: Vec<Edit> = Vec::new();
        std::mem::swap(&mut stack, &mut self.undo_stack);
        let ghost h0 = stack@;
        let edit = match stack.pop() {
            Some(e) => e,
            None => {
                self.undo_stack = stack;
                proof { use_type_invariant(&*self); use_type_invariant(&self.pending); self.lemma_names(); }
                return None;
            },
        };
        assert(stack@.map_values(|e: Edit| e@) =~= h0.map_values(|e: Edit| e@).drop_last());
        self.undo_stack = stack;
        let ghost p0 = self.pending@;
        let mut pending: StringMap<Option<OptionValue>> = StringMap::new();
        std::mem::swap(&mut pending, &mut self.pending);
        proof {
            use_type_invariant(&pending);
            pending.lemma_index_of(edit.option_name@);
            assert(pending_view(p0).map_values(|e: (Seq<char>, Option<ValueView>)| e.0) =~= p0.map_values(|e: (Seq<char>, Option<OptionValue>)| e.0));
        }
        match &edit.before {
            Some(prev) => {
                // Give the option back the pending edit it had, a reset included.
                let v = duplicate_opt(prev);
                let ghost vv = opt_view(v);
                pending.insert(edit.option_name.clone(), v);
                assert(pending_view(pending@) =~= pending_with(pending_view(p0), edit.option_name@, vv));
            },
            None => {
                // It had no pending edit — remove it (fall through to current).
                pending.remove(edit.option_name.as_str());
                assert(pending_view(pending@) =~= pending_without(pending_view(p0), edit.option_name@));
            },
        }
        self.pending = pending;
        proof { use_type_invariant(&*self); use_type_invariant(&self.pending); self.lemma_names(); }
        Some(edit.option_name)
    }

    /// True if there are unsaved changes.
    pub fn is_dirty(&self) -> (r: bool)
        ensures
            r == (self.pending().len() > 0),
    {
        !self.pending.is_empty()
    }

    /// Number of pending changes.
    pub fn pending_count(&self) -> (r: usize)
        ensures
            r == self.pending().len(),
    {
        self.pending.len()
    }

    /// Consume pending changes and return them for the flake writer.
    /// Clears the pending map (caller must handle commit / rollback on write failure).
    pub fn take_pending(&mut self) -> (r: StringMap<Option<OptionValue>>)
        ensures
            pending_view(r@) == old(self).pending(),
            forall|k: Seq<char>| #[trigger] final(self).base(k) == old(self).value_of(k),
            forall|k: Seq<char>| #[trigger] final(self).value_of(k) == old(self).value_of(k),
            final(self).pending().len() == 0,
            final(self).history().len() == 0,
            final(self).valid(),
    {
        proof { use_type_invariant(&*self); use_type_invariant(&self.pending); self.lemma_names(); }
        let mut out: StringMap<Option<OptionValue>> = StringMap::new();
        std::mem::swap(&mut out, &mut self.pending);
        let mut current: StringMap<OptionValue> = StringMap::new();
        std::mem::swap(&mut current, &mut self.current);
        let ghost c0 = current;
        proof { use_type_invariant(&out); }
        // Merge into current (as if saved).
        let mut i: usize = 0;
        while i < out.len()
            invariant
                out.wf(),
                i <= out@.len(),
                forall|k: Seq<char>| #[trigger] opt_view(current.lookup(k)) == {
                    match crate::string_map::position_from(out.keys().take(i as int), k, 0) {
                        Some(j) => opt_view(out@[j].1),
                        None => opt_view(c0.lookup(k)),
                    }
                },
            decreases out@.len() - i,
        {
            let (k, v) = out.entry_at(i);
            let ghost cur = current;
            proof { use_type_invariant(&current); }
            match v {
                Some(val) => {
                    let x = val.duplicate();
                    current.insert(k.clone(), x);
                },
                None => {
                    current.remove(k.as_str());
                },
            }
            proof {
                use_type_invariant(&current);
                assert forall|q: Seq<char>| #[trigger] opt_view(current.lookup(q)) == {
                    match crate::string_map::position_from(out.keys().take(i + 1), q, 0) {
                        Some(j) => opt_view(out@[j].1),
                        None => opt_view(c0.lookup(q)),
                    }
                } by {
                    crate::string_map::lemma_position_prefix(out.keys(), q, i as int);
                    assert(out.keys()[i as int] == k@);
                    if q == k@ {
                        crate::string_map::lemma_position_from(out.keys().take(i as int), q, 0);
                        if let Some(j) = crate::string_map::position_from(out.keys().take(i as int), q, 0) {
                            assert(out.keys()[j] == out.keys()[i as int]);
                        }
                    }
                }
            }
            i += 1;
        }
        proof {
            assert(out.keys().take(out@.len() as int) =~= out.keys());
        }
        self.current = current;
        self.undo_stack = Vec::new();
        assert(pending_view(out@) == old(self).pending());
        proof {
            use_type_invariant(&*self);
            self.lemma_names();
            assert forall|k: Seq<char>| #[trigger] self.value_of(k) == old(self).value_of(k) by {
                assert(self.base(k) == old(self).value_of(k));
            }
        }
        out
    }

    /// Discard all pending changes.
    pub fn revert(&mut self)
        ensures
            revert_post(*old(self), *final(self)),
            final(self).valid(),
    {
        proof { use_type_invariant(&*self); }
        self.pending = StringMap::new();
        self.undo_stack = Vec::new();
        proof { use_type_invariant(&*self); use_type_invariant(&self.pending); self.lemma_names(); }
    }

    /// List all option names that have pending changes.
    pub fn dirty_names(&self) -> (r: Vec<&String>)
        ensures
            r@.map_values(|s: &String| s@) == self.pending_names(),
    {
        let mut names: Vec<&String> = Vec::new();
        let mut i: usize = 0;
        while i < self.pending.len()
            invariant
                i <= self.pending@.len(),
                names@.map_values(|s: &String| s@) =~= self.pending_names().take(i as int),
            decreases self.pending@.len() - i,
        {
            let (k, _) = self.pending.entry_at(i);
            assert(self.pending_names()[i as int] == k@);
            assert(self.pending_names().take(i + 1) =~= self.pending_names().take(i as int).push(k@));
            names.push(k);
            i += 1;
        }
        names
    }
}


/// Setting an option and reading it back gives the value set; every other
/// option keeps its value.
pub proof fn law_set_then_get(s0: ConfigState, s1: ConfigState, name: Seq<char>, v: Option<ValueView>)
    requires
        s0.valid(),
        set_post(s0, s1, name, v),
    ensures
        s1.value_of(name) == v,
        forall|k: Seq<char>| k != name ==> #[trigger] s1.value_of(k) == s0.value_of(k),
        s1.valid(),
{
    crate::string_map::lemma_seq_with(s0.pending(), name, v);
    assert forall|k: Seq<char>| k != name implies #[trigger] s1.value_of(k) == s0.value_of(k) by {
        assert(s1.base(k) == s0.base(k));
    }
}

/// The undo history never holds more than `MAX_UNDO` edits: an accepted edit
/// drops the oldest one when the history is full, and undo only shortens it.
pub proof fn law_history_bounded(s0: ConfigState, s1: ConfigState, name: Seq<char>, v: Option<ValueView>, r: Option<Seq<char>>)
    requires
        s0.history().len() <= MAX_UNDO,
    ensures
        set_post(s0, s1, name, v) ==> s1.history().len() <= MAX_UNDO,
        undo_post(s0, s1, r) ==> s1.history().len() <= MAX_UNDO,
{
}

/// Undoing an accepted edit right after it gives every option back the value it
/// had before the edit, a pending reset to the default included, and hands
/// back the edited option's name; where the history had room, it is as before
/// too.
pub proof fn law_undo_restores(
    s0: ConfigState,
    s1: ConfigState,
    s2: ConfigState,
    name: Seq<char>,
    v: Option<ValueView>,
    r: Option<Seq<char>>,
)
    requires
        s0.valid(),
        set_post(s0, s1, name, v),
        undo_post(s1, s2, r),
    ensures
        r == Some(name),
        forall|k: Seq<char>| #[trigger] s2.value_of(k) == s0.value_of(k),
        s0.history().len() < MAX_UNDO ==> s2.history() == s0.history(),
{
    crate::string_map::lemma_seq_with(s0.pending(), name, v);
    let e = s1.history().last();
    assert(e == EditView { option_name: name, before: s0.edit_of(name), after: v });
    match e.before {
        Some(p) => crate::string_map::lemma_seq_with(s1.pending(), name, p),
        None => crate::string_map::lemma_seq_without(s1.pending(), name),
    }
    assert forall|k: Seq<char>| #[trigger] s2.value_of(k) == s0.value_of(k) by {
        assert(s2.base(k) == s1.base(k));
        assert(s1.base(k) == s0.base(k));
    }
    if s0.history().len() < MAX_UNDO {
        assert(s2.history() =~= s0.history());
    }
}


/// The value that the last of the first `k` edits of `n` gave it, where one of
/// them did.
pub open spec fn last_set(names: Seq<Seq<char>>, vals: Seq<Option<ValueView>>, n: Seq<char>, k: int) -> Option<Option<ValueView>>
    decreases k,
{
    if k <= 0 {
        None
    } else if names[k - 1] == n {
        Some(vals[k - 1])
    } else {
        last_set(names, vals, n, k - 1)
    }
}

/// `states` is a run of accepted edits: each state is the one before with
/// `names[i]` set to `vals[i]`.
pub open spec fn edit_run(states: Seq<ConfigState>, names: Seq<Seq<char>>, vals: Seq<Option<ValueView>>) -> bool {
    &&& states.len() == names.len() + 1
    &&& vals.len() == names.len()
    &&& forall|i: int| 0 <= i < names.len() ==> #[trigger] set_post(states[i], states[i + 1], names[i], vals[i])
}

/// After any run of accepted edits, an option has the value its last edit
/// gave it (a reset to the default included), and an option never edited
/// keeps its value.
pub proof fn law_get_after_edits(states: Seq<ConfigState>, names: Seq<Seq<char>>, vals: Seq<Option<ValueView>>, n: Seq<char>)
    requires
        edit_run(states, names, vals),
        states[0].valid(),
    ensures
        states.last().value_of(n) == match last_set(names, vals, n, names.len() as int) {
            Some(v) => v,
            None => states[0].value_of(n),
        },
        states.last().valid(),
    decreases names.len(),
{
    if names.len() > 0 {
        let k = names.len() - 1;
        let s2 = states.drop_last();
        let n2 = names.drop_last();
        let v2 = vals.drop_last();
        assert forall|i: int| 0 <= i < n2.len() implies #[trigger] set_post(s2[i], s2[i + 1], n2[i], v2[i]) by {
            assert(set_post(states[i], states[i + 1], names[i], vals[i]));
        }
        law_get_after_edits(s2, n2, v2, n);
        assert(last_set(n2, v2, n, k) == last_set(names, vals, n, k)) by {
            lemma_last_set_prefix(names, vals, n, k);
        }
        assert(set_post(states[k], states[k + 1], names[k], vals[k]));
        law_set_then_get(states[k], states[k + 1], names[k], vals[k]);
    }
}

proof fn lemma_last_set_prefix(names: Seq<Seq<char>>, vals: Seq<Option<ValueView>>, n: Seq<char>, k: int)
    requires
        0 <= k < names.len(),
        vals.len() == names.len(),
    ensures
        last_set(names.drop_last(), vals.drop_last(), n, k) == last_set(names, vals, n, k),
    decreases k,
{
    if k > 0 {
        lemma_last_set_prefix(names, vals, n, k - 1);
    }
}

/// Each accepted edit adds one edit to the history, dropping the oldest when
/// it holds `MAX_UNDO`: after `k` edits a history of `h` edits holds
/// `min(h + k, MAX_UNDO)`.
pub proof fn law_history_after_edits(states: Seq<ConfigState>, names: Seq<Seq<char>>, vals: Seq<Option<ValueView>>)
    requires
        edit_run(states, names, vals),
        states[0].history().len() <= MAX_UNDO,
    ensures
        states.last().history().len() == if states[0].history().len() + names.len() <= MAX_UNDO {
            (states[0].history().len() + names.len()) as int
        } else {
            MAX_UNDO as int
        } as nat,
    decreases names.len(),
{
    if names.len() > 0 {
        let k = names.len() - 1;
        let s2 = states.drop_last();
        let n2 = names.drop_last();
        let v2 = vals.drop_last();
        assert forall|i: int| 0 <= i < n2.len() implies #[trigger] set_post(s2[i], s2[i + 1], n2[i], v2[i]) by {
            assert(set_post(states[i], states[i + 1], names[i], vals[i]));
        }
        law_history_after_edits(s2, n2, v2);
        assert(set_post(states[k], states[k + 1], names[k], vals[k]));
    }
}

/// Undo gives back a name exactly while the history holds an edit, and each
/// undo takes one edit off it.
pub proof fn law_undo_counts_down(s0: ConfigState, s1: ConfigState, r: Option<Seq<char>>)
    requires
        undo_post(s0, s1, r),
    ensures
        r is Some <==> s0.history().len() > 0,
        s0.history().len() > 0 ==> s1.history().len() == s0.history().len() - 1,
        s0.history().len() == 0 ==> s1.history().len() == 0,
{
}

/// What `revert` makes of `s0`: its baseline values, no pending edit, no history.
pub open spec fn revert_post(s0: ConfigState, s1: ConfigState) -> bool {
    &&& same_base(s0, s1)
    &&& forall|k: Seq<char>| #[trigger] s1.value_of(k) == s0.base(k)
    &&& s1.pending().len() == 0
    &&& s1.history().len() == 0
}

/// Edits and undos never touch the baseline values, so after any run of them
/// `revert` gives every option back the value it had when the run began
/// without a pending edit, leaves nothing pending and nothing to undo.
pub proof fn law_revert_after_edits(states: Seq<ConfigState>, s: ConfigState)
    requires
        states.len() > 0,
        forall|i: int| 0 <= i < states.len() - 1 ==> #[trigger] same_base(states[i], states[i + 1]),
        revert_post(states.last(), s),
    ensures
        forall|k: Seq<char>| #[trigger] s.value_of(k) == states[0].base(k),
        s.pending().len() == 0,
        s.history().len() == 0,
{
    lemma_base_run(states);
    assert forall|k: Seq<char>| #[trigger] s.value_of(k) == states[0].base(k) by {
        assert(s.value_of(k) == states.last().base(k));
    }
}

proof fn lemma_base_run(states: Seq<ConfigState>)
    requires
        states.len() > 0,
        forall|i: int| 0 <= i < states.len() - 1 ==> #[trigger] same_base(states[i], states[i + 1]),
    ensures
        same_base(states[0], states.last()),
    decreases states.len(),
{
    if states.len() > 1 {
        let s2 = states.drop_last();
        assert forall|i: int| 0 <= i < s2.len() - 1 implies #[trigger] same_base(s2[i], s2[i + 1]) by {
            assert(same_base(states[i], states[i + 1]));
        }
        lemma_base_run(s2);
        let j = states.len() - 2;
        assert(same_base(states[j], states[j + 1]));
        assert forall|k: Seq<char>| #[trigger] states[0].base(k) == states.last().base(k) by {
            assert(states[0].base(k) == s2.last().base(k));
            assert(states[j].base(k) == states[j + 1].base(k));
        }
    }
}

/// `states` is a run of undos: each state is what `undo` made of the one
/// before, returning `rs[i]`.
pub open spec fn undo_run(states: Seq<ConfigState>, rs: Seq<Option<Seq<char>>>) -> bool {
    &&& states.len() == rs.len() + 1
    &&& forall|i: int| 0 <= i < rs.len() ==> #[trigger] undo_post(states[i], states[i + 1], rs[i])
}

/// A run of undos walks the history back, newest first: the `i`-th undo gives
/// back the name of the `i`-th newest edit while there is one, and nothing
/// after that.
pub proof fn law_undo_walks_back(states: Seq<ConfigState>, rs: Seq<Option<Seq<char>>>)
    requires
        undo_run(states, rs),
    ensures
        forall|i: int| 0 <= i < rs.len() ==> #[trigger] rs[i] == if i < states[0].history().len() {
            Some(states[0].history()[states[0].history().len() - 1 - i].option_name)
        } else {
            None::<Seq<char>>
        },
    decreases rs.len(),
{
    if rs.len() > 0 {
        let s2 = states.drop_first();
        let r2 = rs.drop_first();
        assert forall|i: int| 0 <= i < r2.len() implies #[trigger] undo_post(s2[i], s2[i + 1], r2[i]) by {
            let m = i + 1;
            assert(undo_post(states[m], states[m + 1], rs[m]));
        }
        law_undo_walks_back(s2, r2);
        assert(undo_post(states[0], states[1], rs[0]));
        let h = states[0].history();
        assert forall|i: int| 0 <= i < rs.len() implies #[trigger] rs[i] == if i < h.len() {
            Some(h[h.len() - 1 - i].option_name)
        } else {
            None::<Seq<char>>
        } by {
            if i > 0 {
                assert(rs[i] == r2[i - 1]);
                if h.len() == 0 {
                    assert(states[1].history() == h);
                } else {
                    assert(states[1].history() == h.drop_last());
                }
            }
        }
    }
}

/// After a run of accepted edits, the newest entries of the history are those
/// edits, newest last: the `j`-th newest names the `j`-th latest edited option,
/// for as many edits as the history keeps.
pub proof fn law_history_names_after_edits(states: Seq<ConfigState>, names: Seq<Seq<char>>, vals: Seq<Option<ValueView>>)
    requires
        edit_run(states, names, vals),
        states[0].history().len() <= MAX_UNDO,
    ensures
        forall|j: int| 0 <= j < names.len() && j < MAX_UNDO ==> #[trigger] states.last().history()[states.last().history().len() - 1 - j].option_name == names[names.len() - 1 - j],
    decreases names.len(),
{
    if names.len() > 0 {
        let k = names.len() - 1;
        let s2 = states.drop_last();
        let n2 = names.drop_last();
        let v2 = vals.drop_last();
        assert forall|i: int| 0 <= i < n2.len() implies #[trigger] set_post(s2[i], s2[i + 1], n2[i], v2[i]) by {
            assert(set_post(states[i], states[i + 1], names[i], vals[i]));
        }
        law_history_names_after_edits(s2, n2, v2);
        law_history_after_edits(s2, n2, v2);
        assert(set_post(states[k], states[k + 1], names[k], vals[k]));
        let hp = states[k].history();
        let h = states.last().history();
        assert forall|j: int| 0 <= j < names.len() && j < MAX_UNDO implies #[trigger] h[h.len() - 1 - j].option_name == names[names.len() - 1 - j] by {
            if j > 0 {
                assert(h[h.len() - 1 - j] == hp[hp.len() - j]);
                assert(n2[n2.len() - 1 - (j - 1)] == names[names.len() - 1 - j]);
                assert(hp[hp.len() - 1 - (j - 1)].option_name == n2[n2.len() - 1 - (j - 1)]);
            }
        }
    }
}

/// After a run of accepted edits from a state with an empty history, a run of
/// undos gives back the names of the edited options newest first, as many as
/// the history keeps (at most `MAX_UNDO`), and nothing after that.
pub proof fn law_undo_after_edits(
    states: Seq<ConfigState>,
    names: Seq<Seq<char>>,
    vals: Seq<Option<ValueView>>,
    undos: Seq<ConfigState>,
    rs: Seq<Option<Seq<char>>>,
)
    requires
        edit_run(states, names, vals),
        states[0].history().len() == 0,
        undo_run(undos, rs),
        undos[0] == states.last(),
    ensures
        forall|i: int| 0 <= i < rs.len() ==> #[trigger] rs[i] == if i < names.len() && i < MAX_UNDO {
            Some(names[names.len() - 1 - i])
        } else {
            None::<Seq<char>>
        },
{
    law_history_after_edits(states, names, vals);
    law_history_names_after_edits(states, names, vals);
    law_undo_walks_back(undos, rs);
    let h = states.last().history();
    assert forall|i: int| 0 <= i < rs.len() implies #[trigger] rs[i] == if i < names.len() && i < MAX_UNDO {
        Some(names[names.len() - 1 - i])
    } else {
        None::<Seq<char>>
    } by {
        if i < names.len() && i < MAX_UNDO {
            assert(h[h.len() - 1 - i].option_name == names[names.len() - 1 - i]);
        }
    }
}

/// The edit that the `i`-th step of a run of accepted edits records.
pub open spec fn edit_at(states: Seq<ConfigState>, names: Seq<Seq<char>>, vals: Seq<Option<ValueView>>, i: int) -> EditView {
    EditView { option_name: names[i], before: states[i].edit_of(names[i]), after: vals[i] }
}

proof fn lemma_run_prefix(states: Seq<ConfigState>, names: Seq<Seq<char>>, vals: Seq<Option<ValueView>>)
    requires
        edit_run(states, names, vals),
        names.len() > 0,
    ensures
        edit_run(states.drop_last(), names.drop_last(), vals.drop_last()),
{
    let s2 = states.drop_last();
    let n2 = names.drop_last();
    let v2 = vals.drop_last();
    assert forall|i: int| 0 <= i < n2.len() implies #[trigger] set_post(s2[i], s2[i + 1], n2[i], v2[i]) by {
        assert(set_post(states[i], states[i + 1], names[i], vals[i]));
    }
}

/// Every state of a run of accepted edits from a valid state is valid, and
/// keeps the baseline of the first.
proof fn lemma_run_valid(states: Seq<ConfigState>, names: Seq<Seq<char>>, vals: Seq<Option<ValueView>>)
    requires
        edit_run(states, names, vals),
        states[0].valid(),
    ensures
        forall|i: int| 0 <= i < states.len() ==> (#[trigger] states[i]).valid() && same_base(states[i], states[0]),
    decreases names.len(),
{
    if names.len() > 0 {
        lemma_run_prefix(states, names, vals);
        lemma_run_valid(states.drop_last(), names.drop_last(), vals.drop_last());
        let k = names.len() - 1;
        assert(set_post(states[k], states[k + 1], names[k], vals[k]));
        assert(states.drop_last()[k] == states[k]);
        law_set_then_get(states[k], states[k + 1], names[k], vals[k]);
        assert forall|i: int| 0 <= i < states.len() implies (#[trigger] states[i]).valid() && same_base(states[i], states[0]) by {
            if i < states.len() - 1 {
                assert(states.drop_last()[i] == states[i]);
            } else {
                assert forall|q: Seq<char>| #[trigger] states[i].base(q) == states[0].base(q) by {
                    assert(states[k].base(q) == states[0].base(q));
                }
            }
        }
    }
}

/// The newest entries of the history after a run of accepted edits are the
/// edits of the run, as many as the history keeps.
proof fn lemma_history_edits(states: Seq<ConfigState>, names: Seq<Seq<char>>, vals: Seq<Option<ValueView>>)
    requires
        edit_run(states, names, vals),
        states[0].history().len() <= MAX_UNDO,
    ensures
        forall|j: int| 0 <= j < names.len() && j < MAX_UNDO ==> #[trigger] states.last().history()[states.last().history().len() - 1 - j] == edit_at(states, names, vals, names.len() - 1 - j),
    decreases names.len(),
{
    if names.len() > 0 {
        let k = names.len() - 1;
        let s2 = states.drop_last();
        let n2 = names.drop_last();
        let v2 = vals.drop_last();
        lemma_run_prefix(states, names, vals);
        lemma_history_edits(s2, n2, v2);
        law_history_after_edits(s2, n2, v2);
        assert(set_post(states[k], states[k + 1], names[k], vals[k]));
        let hp = states[k].history();
        let h = states.last().history();
        assert forall|j: int| 0 <= j < names.len() && j < MAX_UNDO implies #[trigger] h[h.len() - 1 - j] == edit_at(states, names, vals, names.len() - 1 - j) by {
            if j > 0 {
                assert(h[h.len() - 1 - j] == hp[hp.len() - j]);
                assert(hp[hp.len() - 1 - (j - 1)] == edit_at(s2, n2, v2, n2.len() - 1 - (j - 1)));
                assert(s2[k - j] == states[k - j]);
            }
        }
    }
}

/// Setting `k` and then putting back the pending edit it had before gives the
/// pending edits back exactly.
proof fn lemma_restore_pending(p0: Seq<(Seq<char>, Option<ValueView>)>, k: Seq<char>, v: Option<ValueView>)
    requires
        distinct_keys(entry_keys(p0)),
    ensures
        (match seq_lookup(p0, k) {
            Some(p) => pending_with(pending_with(p0, k, v), k, p),
            None => pending_without(pending_with(p0, k, v), k),
        }) == p0,
{
    crate::string_map::lemma_position_from(entry_keys(p0), k, 0);
    let p1 = pending_with(p0, k, v);
    match crate::string_map::position_from(entry_keys(p0), k, 0) {
        Some(i) => {
            assert(entry_keys(p1) =~= entry_keys(p0));
            assert(pending_with(p1, k, p0[i].1) =~= p0);
        },
        None => {
            assert(entry_keys(p1) =~= entry_keys(p0).push(k));
            crate::string_map::lemma_position_from(entry_keys(p1), k, 0);
            assert(entry_keys(p1)[p0.len() as int] == k);
            assert(forall|t: int| 0 <= t < p0.len() ==> entry_keys(p1)[t] == entry_keys(p0)[t]);
            assert(crate::string_map::position_from(entry_keys(p1), k, 0) == Some(p0.len() as int));
            assert(pending_without(p1, k) =~= p0);
        },
    }
}

/// Undoing as many accepted edits as were made, no more than the history
/// keeps, gives every option back the value it had before the edits, and the
/// pending edits as they were.
pub proof fn law_undos_restore(
    states: Seq<ConfigState>,
    names: Seq<Seq<char>>,
    vals: Seq<Option<ValueView>>,
    undos: Seq<ConfigState>,
    rs: Seq<Option<Seq<char>>>,
)
    requires
        edit_run(states, names, vals),
        states[0].valid(),
        states[0].history().len() <= MAX_UNDO,
        names.len() <= MAX_UNDO,
        undo_run(undos, rs),
        rs.len() == names.len(),
        undos[0] == states.last(),
    ensures
        undos.last().pending() == states[0].pending(),
        forall|q: Seq<char>| #[trigger] undos.last().value_of(q) == states[0].value_of(q),
{
    let k = names.len() as int;
    lemma_run_valid(states, names, vals);
    lemma_history_edits(states, names, vals);
    law_history_after_edits(states, names, vals);
    lemma_undos_step(states, names, vals, undos, rs, k);
    assert forall|q: Seq<char>| #[trigger] undos.last().value_of(q) == states[0].value_of(q) by {
        assert(undos[k].base(q) == states[0].base(q));
    }
}

proof fn lemma_undos_step(
    states: Seq<ConfigState>,
    names: Seq<Seq<char>>,
    vals: Seq<Option<ValueView>>,
    undos: Seq<ConfigState>,
    rs: Seq<Option<Seq<char>>>,
    j: int,
)
    requires
        edit_run(states, names, vals),
        names.len() <= MAX_UNDO,
        undo_run(undos, rs),
        rs.len() == names.len(),
        undos[0] == states.last(),
        0 <= j <= names.len(),
        forall|i: int| 0 <= i < states.len() ==> (#[trigger] states[i]).valid() && same_base(states[i], states[0]),
        states.last().history().len() >= names.len(),
        forall|t: int| 0 <= t < names.len() && t < MAX_UNDO ==> #[trigger] states.last().history()[states.last().history().len() - 1 - t] == edit_at(states, names, vals, names.len() - 1 - t),
    ensures
        undos[j].pending() == states[names.len() - j].pending(),
        same_base(undos[j], states[0]),
        undos[j].history() == states.last().history().take(states.last().history().len() - j),
    decreases j,
{
    let k = names.len() as int;
    let hk = states.last().history();
    if j == 0 {
        assert(hk.take(hk.len() as int) =~= hk);
        assert(same_base(states[k], states[0]));
    } else {
        lemma_undos_step(states, names, vals, undos, rs, j - 1);
        let u = undos[j - 1];
        let m = j - 1;
        assert(undo_post(undos[m], undos[m + 1], rs[m]));
        let i = k - j;
        assert(u.history().len() == hk.len() - (j - 1));
        assert(u.history().last() == hk[hk.len() - 1 - (j - 1)]);
        assert(hk[hk.len() - 1 - (j - 1)] == edit_at(states, names, vals, k - 1 - (j - 1)));
        let e = edit_at(states, names, vals, i);
        assert(set_post(states[i], states[i + 1], names[i], vals[i]));
        assert(states[i].valid());
        lemma_restore_pending(states[i].pending(), names[i], vals[i]);
        assert(undos[j].history() =~= hk.take(hk.len() - j));
        assert forall|q: Seq<char>| #[trigger] undos[j].base(q) == states[0].base(q) by {
            assert(undos[j].base(q) == u.base(q));
        }
    }
}

/// Every accepted edit and every undo keeps the baseline values.
pub proof fn law_edits_keep_base(s0: ConfigState, s1: ConfigState, name: Seq<char>, v: Option<ValueView>, r: Option<Seq<char>>)
    ensures
        set_post(s0, s1, name, v) ==> same_base(s0, s1),
        undo_post(s0, s1, r) ==> same_base(s0, s1),
{
}

} // verus!
