use vstd::prelude::*;

use crate::option::{entries_view, value_view, values_view, OptionValue, ValueView};
use crate::string_map::StringMap;
use crate::text::{
    lemma_find_after, lemma_find_first_is, lemma_find_first_none, lemma_find_from, lemma_find_in_front,
    lemma_find_without_char, lemma_join_starts, lemma_occurs_left, occurs_at, starts_with, all_white_space, chars_of, concat, find_first, find_last, int_string, int_text, is_blank, join, join_texts,
    owned, push_char, push_chars, string_of, views,
};

verus! {

// ---------------------------------------------------------------------------
// Values as Nix expressions
// ---------------------------------------------------------------------------

/// The escape of the first character of `s` in a Nix string literal: a
/// backslash before `\`, before `"`, and before a `$` that opens `${`; any other
/// character as it is.
pub open spec fn escape_head(s: Seq<char>) -> Seq<char> {
    let c = s[0];
    if c == '\\' || c == '"' || (c == '$' && s.len() > 1 && s[1] == '{') {
        seq!['\\', c]
    } else {
        seq![c]
    }
}

/// `s` as the body of a Nix string literal whose value is `s`.
pub open spec fn escape_nix(s: Seq<char>) -> Seq<char>
    decreases s.len(),
{
    if s.len() == 0 {
        Seq::empty()
    } else {
        escape_head(s) + escape_nix(s.drop_first())
    }
}

/// What an escaped character stands for in a Nix string: `\n`, `\r` and `\t`
/// for the control characters, any other character for itself.
pub open spec fn nix_escaped_char(c: char) -> char {
    if c == 'n' {
        '\n'
    } else if c == 'r' {
        '\r'
    } else if c == 't' {
        '\t'
    } else {
        c
    }
}

/// The value of the body `t` of a Nix string literal, where `t` holds no
/// unescaped double quote, no unescaped `${` and no backslash at its end.
pub open spec fn nix_unescape(t: Seq<char>) -> Option<Seq<char>>
    decreases t.len(),
{
    if t.len() == 0 {
        Some(Seq::empty())
    } else if t[0] == '\\' {
        if t.len() < 2 {
            None
        } else {
            match nix_unescape(t.skip(2)) {
                Some(r) => Some(seq![nix_escaped_char(t[1])] + r),
                None => None,
            }
        }
    } else if t[0] == '"' || (t[0] == '$' && t.len() > 1 && t[1] == '{') {
        None
    } else {
        match nix_unescape(t.drop_first()) {
            Some(r) => Some(seq![t[0]] + r),
            None => None,
        }
    }
}

proof fn lemma_escape_nix_first(s: Seq<char>)
    ensures
        escape_nix(s).len() == 0 <==> s.len() == 0,
        s.len() > 0 ==> escape_nix(s)[0] == '\\' || escape_nix(s)[0] == s[0],
{
    if s.len() > 0 {
        assert(escape_nix(s) == escape_head(s) + escape_nix(s.drop_first()));
    }
}

/// A string written into a Nix literal reads back as itself: the literal's
/// body has no unescaped quote or `${`, and unescaping it gives the string.
pub proof fn law_nix_string_reads_back(s: Seq<char>)
    ensures
        nix_unescape(escape_nix(s)) == Some(s),
    decreases s.len(),
{
    if s.len() > 0 {
        let rest = s.drop_first();
        law_nix_string_reads_back(rest);
        lemma_escape_nix_first(rest);
        let t = escape_nix(s);
        let c = s[0];
        assert(t == escape_head(s) + escape_nix(rest));
        if c == '\\' || c == '"' || (c == '$' && s.len() > 1 && s[1] == '{') {
            assert(t[0] == '\\' && t[1] == c);
            assert(t.skip(2) =~= escape_nix(rest));
            assert(seq![c] + rest =~= s);
        } else {
            assert(t[0] == c);
            assert(t.drop_first() =~= escape_nix(rest));
            if c == '$' && t.len() > 1 {
                assert(rest.len() > 0);
                assert(rest[0] == s[1]);
                assert(t[1] == escape_nix(rest)[0]);
            }
            assert(seq![c] + rest =~= s);
        }
    }
}

/// The Nix expression that writes a value.
pub open spec fn nix_text(v: ValueView) -> Seq<char>
    decreases v,
{
    match v {
        ValueView::Bool(b) => if b { "true"@ } else { "false"@ },
        ValueView::Int(n) => int_text(n as int),
        ValueView::Float(plain, _, _) => plain,
        ValueView::Str(s) => "\""@ + escape_nix(s) + "\""@,
        ValueView::Null => "null"@,
        ValueView::List(items) => "[ "@ + join(item_texts(items), " "@) + " ]"@,
        ValueView::Attrs(entries) => "{ "@ + join(binding_texts(entries), " "@) + " }"@,
    }
}

/// The Nix expressions of the elements of a list.
pub open spec fn item_texts(items: Seq<ValueView>) -> Seq<Seq<char>>
    decreases items,
{
    Seq::new(items.len(), |i: int| if 0 <= i < items.len() { nix_text(items[i]) } else { Seq::empty() })
}

/// The Nix bindings `k = v;` of the entries of an attribute set.
pub open spec fn binding_texts(entries: Seq<(Seq<char>, ValueView)>) -> Seq<Seq<char>>
    decreases entries,
{
    Seq::new(entries.len(), |i: int| if 0 <= i < entries.len() {
        entries[i].0 + " = "@ + {
            proof { assert(decreases_to!(entries => entries[i])); }
            nix_text(entries[i].1)
        } + ";"@
    } else {
        Seq::empty()
    })
}

/// `s` as the body of a Nix string literal.
fn escaped(s: &str) -> (r: String)
    ensures
        r@ == escape_nix(s@),
{
    let cs = chars_of(s);
    let mut r = String::new();
    let mut i: usize = 0;
    assert(cs@.skip(0) =~= cs@);
    assert(r@ + escape_nix(cs@.skip(0)) =~= escape_nix(s@));
    while i < cs.len()
        invariant
            cs@ == s@,
            i <= cs@.len(),
            r@ + escape_nix(cs@.skip(i as int)) == escape_nix(s@),
        decreases cs@.len() - i,
    {
        let ghost rest = cs@.skip(i as int);
        assert(rest.drop_first() =~= cs@.skip(i + 1));
        assert(rest[0] == cs@[i as int]);
        assert(rest.len() > 1 ==> rest[1] == cs@[i + 1]);
        let c = cs[i];
        let opens = c == '$' && i + 1 < cs.len() && cs[i + 1] == '{';
        let ghost before = r@;
        if c == '\\' || c == '"' || opens {
            push_char(&mut r, '\\');
        }
        push_char(&mut r, c);
        assert(r@ =~= before + escape_head(rest));
        assert(r@ + escape_nix(cs@.skip(i + 1)) =~= before + escape_nix(rest));
        i += 1;
    }
    assert(cs@.skip(cs@.len() as int) =~= Seq::<char>::empty());
    assert(r@ =~= r@ + escape_nix(cs@.skip(cs@.len() as int)));
    r
}

/// The Nix expression that writes `val`.
pub fn value_to_nix(val: &OptionValue) -> (r: String)
    ensures
        r@ == nix_text(val@),
    decreases val,
{
    match val {
        OptionValue::Bool(b) => {
            if *b {
                owned("true")
            } else {
                owned("false")
            }
        },
        OptionValue::Int(n) => int_string(*n),
        OptionValue::Float(f) => f.plain.clone(),
        OptionValue::Str(s) => {
            let mut r = owned("\"");
            let e = escaped(s.as_str());
            r.append(e.as_str());
            r.append("\"");
            r
        },
        OptionValue::Null => owned("null"),
        OptionValue::List(items) => {
            let mut inner: Vec<String> = Vec::new();
            let mut i: usize = 0;
            while i < items.len()
                invariant
                    *val is List,
                    (*val)->List_0 == *items,
                    i <= items@.len(),
                    views(inner@) =~= item_texts(values_view(items@)).take(i as int),
                decreases items@.len() - i,
            {
                proof {
                    broadcast use vstd::std_specs::vec::group_vec_axioms;
                    assert(decreases_to!(*val => (*val)->List_0));
                    assert(decreases_to!(*items => items[i as int]));
                }
                let t = value_to_nix(&items[i]);
                assert(values_view(items@)[i as int] == items@[i as int]@);
                assert(item_texts(values_view(items@))[i as int] == t@);
                let ghost prev = inner@;
                inner.push(t);
                assert(views(inner@) =~= views(prev).push(t@));
                i += 1;
            }
            assert(item_texts(values_view(items@)).take(items@.len() as int) =~= item_texts(values_view(items@)));
            let joined = join_texts(&inner, " ");
            let mut r = owned("[ ");
            r.append(joined.as_str());
            r.append(" ]");
            r
        },
        OptionValue::Attrs(map) => {
            let mut pairs: Vec<String> = Vec::new();
            let mut i: usize = 0;
            while i < map.len()
                invariant
                    *val is Attrs,
                    (*val)->Attrs_0 == *map,
                    i <= map@.len(),
                    views(pairs@) =~= binding_texts(entries_view(*map)).take(i as int),
                decreases map@.len() - i,
            {
                let (k, v) = map.entry_at(i);
                proof {
                    map.lemma_value_decreases(i as int);
                    assert(decreases_to!(*val => (*val)->Attrs_0));
                }
                let t = value_to_nix(v);
                let mut b = k.clone();
                b.append(" = ");
                b.append(t.as_str());
                b.append(";");
                assert(entries_view(*map)[i as int] == (map@[i as int].0, map@[i as int].1@));
                assert(binding_texts(entries_view(*map))[i as int] == b@);
                let ghost prev = pairs@;
                pairs.push(b);
                assert(views(pairs@) =~= views(prev).push(b@));
                i += 1;
            }
            assert(binding_texts(entries_view(*map)).take(map@.len() as int) =~= binding_texts(entries_view(*map)));
            let joined = join_texts(&pairs, " ");
            let mut r = owned("{ ");
            r.append(joined.as_str());
            r.append(" }");
            r
        },
    }
}


// ---------------------------------------------------------------------------
// The managed block
// ---------------------------------------------------------------------------

/// Where an entry with key `k` goes among `s`, searching from `i`: before the
/// first entry whose key comes after `k`.
pub open spec fn insert_pos<A>(s: Seq<(Seq<char>, A)>, k: Seq<char>, i: int) -> int
    decreases s.len() - i,
{
    if i < 0 || i >= s.len() {
        s.len() as int
    } else if crate::text::text_lt(k, s[i].0) {
        i
    } else {
        insert_pos(s, k, i + 1)
    }
}

/// The entries of `s` in key order, entries with equal keys in their order in `s`
/// (what std's stable `sort_by_key` leaves).
pub open spec fn sort_by_key<A>(s: Seq<(Seq<char>, A)>) -> Seq<(Seq<char>, A)>
    decreases s.len(),
{
    if s.len() == 0 {
        s
    } else {
        let rest = sort_by_key(s.drop_last());
        rest.insert(insert_pos(rest, s.last().0, 0), s.last())
    }
}

/// Where `insert_pos` points.
pub proof fn lemma_insert_pos<A>(s: Seq<(Seq<char>, A)>, k: Seq<char>, i: int)
    requires
        0 <= i <= s.len(),
    ensures
        i <= insert_pos(s, k, i) <= s.len(),
    decreases s.len() - i,
{
    if i < s.len() && !crate::text::text_lt(k, s[i].0) {
        lemma_insert_pos(s, k, i + 1);
    }
}

/// Sorting keeps the number of entries.
pub proof fn lemma_sort_len<A>(s: Seq<(Seq<char>, A)>)
    ensures
        sort_by_key(s).len() == s.len(),
    decreases s.len(),
{
    if s.len() > 0 {
        lemma_sort_len(s.drop_last());
        lemma_insert_pos(sort_by_key(s.drop_last()), s.last().0, 0);
    }
}

/// What `insert_pos` passes over comes no later than `k`, and what it stops at
/// comes after `k`.
pub proof fn lemma_insert_pos_stops<A>(s: Seq<(Seq<char>, A)>, k: Seq<char>, i: int)
    requires
        0 <= i <= s.len(),
    ensures
        forall|j: int| i <= j < insert_pos(s, k, i) ==> !crate::text::text_lt(k, #[trigger] s[j].0),
        insert_pos(s, k, i) < s.len() ==> crate::text::text_lt(k, s[insert_pos(s, k, i)].0),
    decreases s.len() - i,
{
    if i < s.len() && !crate::text::text_lt(k, s[i].0) {
        lemma_insert_pos_stops(s, k, i + 1);
    }
}

/// The entries are in key order: no entry's key comes before the key of an
/// entry ahead of it.
pub open spec fn key_sorted<A>(s: Seq<(Seq<char>, A)>) -> bool {
    forall|i: int, j: int| 0 <= i < j < s.len() ==> !crate::text::text_lt(#[trigger] s[j].0, #[trigger] s[i].0)
}

/// Sorting by key keeps every entry, as often as it occurs, and puts them in
/// key order.
pub proof fn law_sort_orders<A>(s: Seq<(Seq<char>, A)>)
    ensures
        key_sorted(sort_by_key(s)),
        sort_by_key(s).to_multiset() == s.to_multiset(),
    decreases s.len(),
{
    if s.len() == 0 {
        return;
    }
    let rest = sort_by_key(s.drop_last());
    let x = s.last();
    law_sort_orders(s.drop_last());
    lemma_insert_pos(rest, x.0, 0);
    lemma_insert_pos_stops(rest, x.0, 0);
    let p = insert_pos(rest, x.0, 0);
    let r = rest.insert(p, x);
    assert(sort_by_key(s) == r);
    assert forall|i: int, j: int| 0 <= i < j < r.len() implies !crate::text::text_lt(#[trigger] r[j].0, #[trigger] r[i].0) by {
        if j < p {
            assert(r[i] == rest[i] && r[j] == rest[j]);
        } else if j == p {
            assert(r[i] == rest[i] && r[j] == x);
        } else if i < p {
            assert(r[i] == rest[i] && r[j] == rest[j - 1]);
        } else if i == p {
            assert(r[i] == x && r[j] == rest[j - 1]);
            crate::text::lemma_text_lt_asym(x.0, rest[p].0);
            if j - 1 > p {
                assert(!crate::text::text_lt(rest[j - 1].0, rest[p].0));
                if crate::text::text_lt(rest[j - 1].0, x.0) {
                    crate::text::lemma_text_lt_trans(rest[j - 1].0, x.0, rest[p].0);
                }
            }
        } else {
            assert(r[i] == rest[i - 1] && r[j] == rest[j - 1]);
        }
    }
    vstd::seq_lib::to_multiset_insert(rest, p, x);
    vstd::seq_lib::to_multiset_build(s.drop_last(), x);
    assert(s.drop_last().push(x) =~= s);
}

/// The first line of the managed block.
pub open spec fn block_head() -> Seq<char> {
    "# nixcfg:start  (managed by nixcfg — do not edit this block manually)"@
}

/// The line of the managed block for one change: an assignment, or a comment
/// for an option reset to its default.
pub open spec fn change_line(e: (Seq<char>, Option<ValueView>)) -> Seq<char> {
    match e.1 {
        Some(v) => "  "@ + e.0 + " = "@ + nix_text(v) + ";"@,
        None => "  # "@ + e.0 + " = <default>;"@,
    }
}

/// The managed block for a set of changes: a start marker, one line per change
/// in key order, an end marker, joined by newlines.
pub open spec fn managed_block(p: Seq<(Seq<char>, Option<ValueView>)>) -> Seq<char> {
    join(
        seq![block_head()] + sort_by_key(p).map_values(|e: (Seq<char>, Option<ValueView>)| change_line(e))
            + seq!["# nixcfg:end"@],
        "\n"@,
    )
}

/// The changes of a pending map, each value taken by its view.
pub open spec fn changes_view(changes: StringMap<Option<OptionValue>>) -> Seq<(Seq<char>, Option<ValueView>)> {
    crate::state::pending_view(changes@)
}

/// The managed block for `changes`.
pub fn generate_managed_block(changes: &StringMap<Option<OptionValue>>) -> (r: String)
    ensures
        r@ == managed_block(changes_view(*changes)),
{
    let ghost pv = changes_view(*changes);
    // The indices of the changes, in key order.
    let mut order: Vec<usize> = Vec::new();
    let mut i: usize = 0;
    while i < changes.len()
        invariant
            pv == changes_view(*changes),
            i <= changes@.len(),
            forall|t: int| 0 <= t < order@.len() ==> #[trigger] order@[t] < changes@.len(),
            order@.map_values(|j: usize| pv[j as int]) =~= sort_by_key(pv.take(i as int)),
        decreases changes@.len() - i,
    {
        let (key, _) = changes.entry_at(i);
        let ghost sorted = order@.map_values(|j: usize| pv[j as int]);
        let mut p: usize = 0;
        while p < order.len() && !crate::text::text_less(key.as_str(), changes.entry_at(order[p]).0.as_str())
            invariant
                pv == changes_view(*changes),
                i < changes@.len(),
                key@ == pv[i as int].0,
                forall|t: int| 0 <= t < order@.len() ==> #[trigger] order@[t] < changes@.len(),
                sorted == order@.map_values(|j: usize| pv[j as int]),
                p <= order@.len(),
                insert_pos(sorted, key@, 0) == insert_pos(sorted, key@, p as int),
            decreases order@.len() - p,
        {
            p += 1;
        }
        proof {
            if p < order@.len() {
                assert(sorted[p as int].0 == changes@[order@[p as int] as int].0);
            }
            assert(pv.take(i + 1).drop_last() =~= pv.take(i as int));
            assert(pv.take(i + 1).last() == pv[i as int]);
        }
        order.insert(p, i);
        assert(order@.map_values(|j: usize| pv[j as int]) =~= sorted.insert(p as int, pv[i as int]));
        i += 1;
    }
    assert(pv.take(changes@.len() as int) =~= pv);
    let ghost sorted = order@.map_values(|j: usize| pv[j as int]);
    let mut lines: Vec<String> = Vec::new();
    lines.push(owned("# nixcfg:start  (managed by nixcfg — do not edit this block manually)"));
    let mut t: usize = 0;
    while t < order.len()
        invariant
            pv == changes_view(*changes),
            sorted == order@.map_values(|j: usize| pv[j as int]),
            forall|q: int| 0 <= q < order@.len() ==> #[trigger] order@[q] < changes@.len(),
            t <= order@.len(),
            views(lines@) =~= seq![block_head()] + sorted.take(t as int).map_values(|e: (Seq<char>, Option<ValueView>)| change_line(e)),
        decreases order@.len() - t,
    {
        let (name, val_opt) = changes.entry_at(order[t]);
        let line = match val_opt {
            Some(val) => {
                let mut l = owned("  ");
                l.append(name.as_str());
                l.append(" = ");
                let v = value_to_nix(val);
                l.append(v.as_str());
                l.append(";");
                l
            },
            None => {
                // Explicitly reset to default — emit a comment.
                let mut l = owned("  # ");
                l.append(name.as_str());
                l.append(" = <default>;");
                l
            },
        };
        assert(sorted[t as int] == pv[order@[t as int] as int]);
        assert(line@ == change_line(sorted[t as int]));
        let ghost prev = lines@;
        lines.push(line);
        assert(views(lines@) =~= views(prev).push(line@));
        assert(sorted.take(t + 1) =~= sorted.take(t as int).push(sorted[t as int]));
        t += 1;
    }
    let ghost prev = lines@;
    lines.push(owned("# nixcfg:end"));
    assert(views(lines@) =~= views(prev).push("# nixcfg:end"@));
    assert(sorted.take(order@.len() as int) =~= sorted);
    assert(views(lines@) =~= seq![block_head()] + sort_by_key(pv).map_values(|e: (Seq<char>, Option<ValueView>)| change_line(e)) + seq!["# nixcfg:end"@]);
    join_texts(&lines, "\n")
}


// ---------------------------------------------------------------------------
// Source manipulation
// ---------------------------------------------------------------------------

/// The marker that opens the managed block.
pub open spec fn start_marker() -> Seq<char> {
    "# nixcfg:start"@
}

/// The marker that closes the managed block.
pub open spec fn end_marker() -> Seq<char> {
    "# nixcfg:end"@
}

/// A fresh configuration that holds only `block`.
pub open spec fn config_with_block(block: Seq<char>) -> Seq<char> {
    "{ config, pkgs, ... }:\n{\n"@ + block + "\n}\n"@
}

/// The configuration source `s` with `block` as its managed block: where `s`
/// has a start marker, the text from it to the end of the first end marker (to
/// the end of `s` where it has none) gives way to `block`; where `s` is blank, a
/// fresh configuration; else `block` goes before the last `}` of `s`, or after
/// `s` where it has none.
pub open spec fn with_block(s: Seq<char>, block: Seq<char>) -> Seq<char> {
    match find_first(s, start_marker()) {
        Some(b) => {
            let a = match find_first(s, end_marker()) {
                Some(j) => j + end_marker().len(),
                None => s.len() as int,
            };
            s.take(b) + block + s.skip(a)
        },
        None => if all_white_space(s) {
            config_with_block(block)
        } else {
            match find_last(s, '}') {
                Some(i) => s.take(i) + "\n  "@ + block + "\n"@ + s.skip(i),
                None => s + "\n"@ + block,
            }
        },
    }
}

/// The configuration source `s` with the managed block of `changes`.
pub open spec fn applied(s: Seq<char>, changes: Seq<(Seq<char>, Option<ValueView>)>) -> Seq<char> {
    with_block(s, managed_block(changes))
}

/// Rewriting a configuration keeps what comes before its managed block and
/// what comes after the block's end marker as they were; a configuration with
/// no block and some text keeps all of it around the block put in.
pub proof fn law_outside_block_kept(s: Seq<char>, c: Seq<(Seq<char>, Option<ValueView>)>)
    ensures
        find_first(s, start_marker()) matches Some(b) ==> {
            let a = match find_first(s, end_marker()) {
                Some(j) => j + end_marker().len(),
                None => s.len() as int,
            };
            &&& applied(s, c).take(b) == s.take(b)
            &&& applied(s, c).skip(applied(s, c).len() - s.skip(a).len()) == s.skip(a)
        },
        find_first(s, start_marker()) is None && !all_white_space(s) ==> exists|i: int|
            0 <= i <= s.len() && (#[trigger] applied(s, c).take(i)) == s.take(i)
                && applied(s, c).skip(applied(s, c).len() - (s.len() - i)) == s.skip(i),
{
    let t = applied(s, c);
    let block = managed_block(c);
    lemma_find_from(s, start_marker(), 0);
    lemma_find_from(s, end_marker(), 0);
    match find_first(s, start_marker()) {
        Some(b) => {
            let a = match find_first(s, end_marker()) {
                Some(j) => j + end_marker().len(),
                None => s.len() as int,
            };
            assert(t == s.take(b) + block + s.skip(a));
            assert(t.take(b) =~= s.take(b));
            assert(t.skip(t.len() - s.skip(a).len()) =~= s.skip(a));
        },
        None => {
            if !all_white_space(s) {
                crate::text::lemma_last_before(s, '}', s.len() as int);
                match find_last(s, '}') {
                    Some(i) => {
                        assert(t.take(i) =~= s.take(i));
                        assert(t.skip(t.len() - (s.len() - i)) =~= s.skip(i));
                    },
                    None => {
                        let n = s.len() as int;
                        assert(t.take(n) =~= s.take(n));
                        assert(t.skip(t.len() - (s.len() - n)) =~= s.skip(n));
                    },
                }
            }
        },
    }
}

/// Apply a map of option-name → new-value to a Nix configuration source string.
///
/// We look for the `nixcfg-managed` block delimited by marker comments, and
/// regenerate only that section.  Everything outside the markers is preserved
/// verbatim (hand-written content, comments, etc.).
pub fn apply_changes_to_source(source: &str, changes: &StringMap<Option<OptionValue>>) -> (r: String)
    ensures
        r@ == applied(source@, changes_view(*changes)),
{
    let managed_block = generate_managed_block(changes);
    let cs = chars_of(source);
    let start = chars_of("# nixcfg:start");
    let end = chars_of("# nixcfg:end");
    proof {
        crate::text::lemma_find_from(cs@, start@, 0);
        crate::text::lemma_find_from(cs@, end@, 0);
    }
    match crate::text::find_chars(&cs, &start) {
        Some(before) => {
            // Replace existing managed block.
            let after = match crate::text::find_chars(&cs, &end) {
                Some(j) => {
                    assert(j + end@.len() <= cs@.len());
                    assert(j + end.len() <= cs.len());
                    j + end.len()
                },
                None => cs.len(),
            };
            let mut r = string_of(&cs, 0, before);
            r.append(managed_block.as_str());
            push_chars(&mut r, &cs, after, cs.len());
            assert(cs@.subrange(0, before as int) =~= cs@.take(before as int));
            assert(cs@.subrange(after as int, cs@.len() as int) =~= cs@.skip(after as int));
            r
        },
        None => {
            if is_blank(source) {
                // No existing file — produce a full skeleton.
                minimal_configuration_with_block(managed_block.as_str())
            } else {
                // Existing hand-written config — inject before the closing `}`.
                proof { crate::text::lemma_last_before(cs@, '}', cs@.len() as int); }
                match crate::text::find_last_char(&cs, '}') {
                    Some(last_brace) => {
                        let mut r = string_of(&cs, 0, last_brace);
                        r.append("\n  ");
                        r.append(managed_block.as_str());
                        r.append("\n");
                        push_chars(&mut r, &cs, last_brace, cs.len());
                        assert(cs@.subrange(0, last_brace as int) =~= cs@.take(last_brace as int));
                        assert(cs@.subrange(last_brace as int, cs@.len() as int) =~= cs@.skip(last_brace as int));
                        r
                    },
                    None => {
                        // Fallback: append.
                        let mut r = owned(source);
                        r.append("\n");
                        r.append(managed_block.as_str());
                        r
                    },
                }
            }
        },
    }
}

// ---------------------------------------------------------------------------
// Scaffolding templates
// ---------------------------------------------------------------------------

/// A minimal flake whose one NixOS configuration, named `hostname`, imports
/// `./configuration.nix`.
pub open spec fn flake_template(hostname: Seq<char>) -> Seq<char> {
    "{\n  description = \"NixOS configuration managed by nixcfg\";\n\n  inputs = {\n    nixpkgs.url = \"github:NixOS/nixpkgs/nixos-unstable\";\n  };\n\n  outputs = { self, nixpkgs }: {\n    nixosConfigurations."@
        + hostname
        + " = nixpkgs.lib.nixosSystem {\n      system = \"x86_64-linux\";\n      modules = [ ./configuration.nix ];\n    };\n  };\n}\n"@
}

/// A minimal configuration that names the host `hostname`.
pub open spec fn configuration_template(hostname: Seq<char>) -> Seq<char> {
    "{ config, pkgs, ... }:\n{\n  networking.hostName = \""@ + hostname + "\";\n  system.stateVersion = \"24.05\";\n}\n"@
}

pub fn minimal_flake(hostname: &str) -> (r: String)
    ensures
        r@ == flake_template(hostname@),
{
    let mut r = owned("{\n  description = \"NixOS configuration managed by nixcfg\";\n\n  inputs = {\n    nixpkgs.url = \"github:NixOS/nixpkgs/nixos-unstable\";\n  };\n\n  outputs = { self, nixpkgs }: {\n    nixosConfigurations.");
    r.append(hostname);
    r.append(" = nixpkgs.lib.nixosSystem {\n      system = \"x86_64-linux\";\n      modules = [ ./configuration.nix ];\n    };\n  };\n}\n");
    r
}

pub fn minimal_configuration(hostname: &str) -> (r: String)
    ensures
        r@ == configuration_template(hostname@),
{
    let mut r = owned("{ config, pkgs, ... }:\n{\n  networking.hostName = \"");
    r.append(hostname);
    r.append("\";\n  system.stateVersion = \"24.05\";\n}\n");
    r
}

pub fn minimal_configuration_with_block(block: &str) -> (r: String)
    ensures
        r@ == config_with_block(block@),
{
    let mut r = owned("{ config, pkgs, ... }:\n{\n");
    r.append(block);
    r.append("\n}\n");
    r
}

/// Writes pending config changes back into the configuration next to a flake.
///
/// The standard NixOS pattern:
///
///   /etc/nixos/flake.nix        ← minimal flake, imports ./configuration.nix
///   /etc/nixos/configuration.nix ← all option assignments live here
pub struct FlakeWriter {
    /// The directory that holds flake.nix and configuration.nix.
    pub config_dir: String,
}

impl FlakeWriter {
    pub fn new(config_dir: String) -> (r: Self)
        ensures
            r.config_dir == config_dir,
    {
        FlakeWriter { config_dir }
    }

    /// The configuration text to write, given what the file holds now (empty
    /// where there is none) and the changes.
    pub fn updated_configuration(&self, existing: &str, changes: &StringMap<Option<OptionValue>>) -> (r: String)
        ensures
            r@ == applied(existing@, changes_view(*changes)),
    {
        apply_changes_to_source(existing, changes)
    }

    /// The argument that selects this flake's configuration in `nixos-rebuild`:
    /// the directory followed by `#`.
    pub fn flake_ref(&self) -> (r: String)
        ensures
            r@ == self.config_dir@ + "#"@,
    {
        let mut r = self.config_dir.clone();
        r.append("#");
        r
    }

    /// The arguments of `nixos-rebuild` for `action` (`dry-run` or `switch`)
    /// on this flake.
    pub fn rebuild_args(&self, action: &str) -> (r: Vec<String>)
        ensures
            views(r@) == seq![action@, "--flake"@, self.config_dir@ + "#"@],
    {
        let mut r: Vec<String> = Vec::new();
        r.push(action.to_owned());
        r.push("--flake".to_owned());
        r.push(self.flake_ref());
        assert(views(r@) =~= seq![action@, "--flake"@, self.config_dir@ + "#"@]);
        r
    }
}

/// What a run of `nixos-rebuild` for `action` reports: its output followed by
/// its error output where it succeeded; else that it failed, with its error
/// output.
pub open spec fn rebuild_report(action: Seq<char>, success: bool, stdout: Seq<char>, stderr: Seq<char>) -> Result<Seq<char>, Seq<char>> {
    if success {
        Ok(stdout + "\n"@ + stderr)
    } else {
        Err("nixos-rebuild "@ + action + " failed:\n"@ + stderr)
    }
}

/// The report of a run of `nixos-rebuild` for `action`, from whether it
/// succeeded and what it printed.
pub fn rebuild_outcome(action: &str, success: bool, stdout: &str, stderr: &str) -> (r: Result<String, String>)
    ensures
        match (r, rebuild_report(action@, success, stdout@, stderr@)) {
            (Ok(a), Ok(b)) => a@ == b,
            (Err(a), Err(b)) => a@ == b,
            _ => false,
        },
{
    if success {
        let mut r = concat(stdout, "\n");
        r.append(stderr);
        Ok(r)
    } else {
        let mut r = concat("nixos-rebuild ", action);
        r.append(" failed:\n");
        r.append(stderr);
        Err(r)
    }
}


// ---------------------------------------------------------------------------
// Writing twice
// ---------------------------------------------------------------------------

/// No end marker of `s` comes before the place where the managed block goes:
/// where `s` has a start marker, its first end marker (if any) does not come
/// before it; where it has none and is not blank, it has no end marker before its
/// last `}` (anywhere, where it has no `}`).
pub open spec fn markers_in_order(s: Seq<char>) -> bool {
    match find_first(s, start_marker()) {
        Some(b) => match find_first(s, end_marker()) {
            Some(j) => j >= b,
            None => true,
        },
        None => if all_white_space(s) {
            true
        } else {
            match find_last(s, '}') {
                Some(i) => find_first(s.take(i), end_marker()) is None,
                None => find_first(s, end_marker()) is None,
            }
        },
    }
}

/// The block holds the end marker only at its end.
pub open spec fn ends_once(b: Seq<char>) -> bool {
    find_first(b, end_marker()) == Some(b.len() - end_marker().len())
}

proof fn lemma_markers()
    ensures
        start_marker().len() == 14,
        end_marker().len() == 12,
        start_marker()[0] == '#',
        end_marker()[0] == '#',
        forall|d: int| 1 <= d < 14 ==> start_marker()[d] != '#',
        forall|d: int| 1 <= d < 12 ==> end_marker()[d] != '#',
        forall|d: int| 0 <= d < 14 ==> start_marker()[d] != '\n',
        forall|d: int| 0 <= d < 12 ==> end_marker()[d] != '\n',
{
    reveal_strlit("# nixcfg:start");
    reveal_strlit("# nixcfg:end");
}

/// Neither marker occurs in a text without `#`, and the start marker occurs in
/// a text that starts with it at its start.
proof fn lemma_no_marker(s: Seq<char>)
    requires
        forall|k: int| 0 <= k < s.len() ==> s[k] != '#',
    ensures
        find_first(s, start_marker()) is None,
        find_first(s, end_marker()) is None,
{
    lemma_markers();
    lemma_find_without_char(s, start_marker());
    lemma_find_without_char(s, end_marker());
}

/// Where `p` occurs in `s` first at `b` (or not at all), it does not occur in
/// the part of `s` before `b`.
proof fn lemma_none_before(s: Seq<char>, p: Seq<char>, b: int)
    requires
        0 <= b <= s.len(),
        p.len() > 0,
        forall|k: int| 0 <= k < b ==> !occurs_at(s, p, k),
    ensures
        find_first(s.take(b), p) is None,
{
    let x = s.take(b);
    let y = s.skip(b);
    assert(s =~= x + y);
    assert forall|k: int| 0 <= k implies !occurs_at(x, p, k) by {
        if occurs_at(x, p, k) {
            lemma_occurs_left(x, y, p, k);
            assert(occurs_at(x + y, p, k));
            assert(k < b);
        }
    }
    lemma_find_first_none(s.take(b), p);
}

/// In `x + (b1 + r)`, where neither marker occurs in `x` and `b1` starts with the
/// start marker and holds the end marker only at its end, the block to replace
/// is exactly `b1`.
proof fn lemma_block_found(x: Seq<char>, b1: Seq<char>, r: Seq<char>)
    requires
        find_first(x, start_marker()) is None,
        find_first(x, end_marker()) is None,
        starts_with(b1, start_marker()),
        ends_once(b1),
    ensures
        find_first(x + (b1 + r), start_marker()) == Some(x.len() as int),
        find_first(x + (b1 + r), end_marker()) == Some(x.len() + b1.len() - end_marker().len()),
{
    lemma_markers();
    assert(b1.subrange(0, start_marker().len() as int) =~= b1.take(start_marker().len() as int));
    lemma_find_first_is(b1, start_marker(), 0);
    lemma_find_in_front(b1, r, start_marker());
    lemma_find_in_front(b1, r, end_marker());
    assert((b1 + r)[0] == start_marker()[0]);
    lemma_find_after(x, b1 + r, start_marker(), '#');
    lemma_find_after(x, b1 + r, end_marker(), '#');
}

/// Writing `b2` over what writing `b1` made is writing `b2` alone.
proof fn lemma_with_block_twice(s: Seq<char>, b1: Seq<char>, b2: Seq<char>)
    requires
        markers_in_order(s),
        starts_with(b1, start_marker()),
        ends_once(b1),
    ensures
        with_block(with_block(s, b1), b2) == with_block(s, b2),
{
    lemma_markers();
    lemma_find_from(s, start_marker(), 0);
    lemma_find_from(s, end_marker(), 0);
    let t = with_block(s, b1);
    match find_first(s, start_marker()) {
        Some(b) => {
            let a = match find_first(s, end_marker()) {
                Some(j) => j + end_marker().len(),
                None => s.len() as int,
            };
            let x = s.take(b);
            let rest = s.skip(a);
            lemma_none_before(s, start_marker(), b);
            lemma_none_before(s, end_marker(), b);
            assert(t =~= x + (b1 + rest));
            lemma_block_found(x, b1, rest);
            assert(t.take(b) =~= x);
            assert(t.skip(b + b1.len()) =~= rest);
        },
        None => {
            if all_white_space(s) {
                let h = "{ config, pkgs, ... }:\n{\n"@;
                let f = "\n}\n"@;
                reveal_strlit("{ config, pkgs, ... }:\n{\n");
                lemma_no_marker(h);
                assert(t =~= h + (b1 + f));
                lemma_block_found(h, b1, f);
                assert(t.take(h.len() as int) =~= h);
                assert(t.skip((h.len() + b1.len()) as int) =~= f);
            } else {
                let nl = "\n"@;
                let nls = "\n  "@;
                reveal_strlit("\n");
                reveal_strlit("\n  ");
                lemma_no_marker(nl);
                lemma_no_marker(nls);
                match find_last(s, '}') {
                    Some(i) => {
                        crate::text::lemma_last_before(s, '}', s.len() as int);
                        let x = s.take(i);
                        let rest = nl + s.skip(i);
                        lemma_none_before(s, start_marker(), i);
                        lemma_block_found(nls, b1, rest);
                        let y = nls + (b1 + rest);
                        assert(y[0] == '\n');
                        lemma_find_after(x, y, start_marker(), '\n');
                        lemma_find_after(x, y, end_marker(), '\n');
                        assert(t =~= x + y);
                        assert(t.take(i + 3) =~= x + nls);
                        assert(t.skip(i + 3 + b1.len()) =~= rest);
                        assert(with_block(t, b2) =~= s.take(i) + "\n  "@ + b2 + "\n"@ + s.skip(i));
                    },
                    None => {
                        lemma_block_found(nl, b1, Seq::empty());
                        let y = nl + (b1 + Seq::empty());
                        assert(y[0] == '\n');
                        lemma_find_after(s, y, start_marker(), '\n');
                        lemma_find_after(s, y, end_marker(), '\n');
                        assert(t =~= s + y);
                        assert(t.take((s.len() + 1) as int) =~= s + nl);
                        assert(t.skip((s.len() + 1 + b1.len()) as int) =~= Seq::<char>::empty());
                        assert(with_block(t, b2) =~= s + "\n"@ + b2);
                    },
                }
            }
        },
    }
}

/// Writing a second set of changes into what writing a first set made gives
/// what writing the second set alone gives: the managed block is replaced and
/// everything outside it kept. This holds where the source has no end marker
/// before the place of the block, and where no text of the first changes holds
/// the end marker.
pub proof fn law_rewrite_replaces_block(
    s: Seq<char>,
    c1: Seq<(Seq<char>, Option<ValueView>)>,
    c2: Seq<(Seq<char>, Option<ValueView>)>,
)
    requires
        markers_in_order(s),
        ends_once(managed_block(c1)),
    ensures
        applied(applied(s, c1), c2) == applied(s, c2),
{
    let parts = seq![block_head()] + sort_by_key(c1).map_values(|e: (Seq<char>, Option<ValueView>)| change_line(e))
        + seq!["# nixcfg:end"@];
    lemma_join_starts(parts, "\n"@);
    assert(parts[0] == block_head());
    reveal_strlit("# nixcfg:start  (managed by nixcfg — do not edit this block manually)");
    reveal_strlit("# nixcfg:start");
    let b1 = managed_block(c1);
    assert(b1.take(14) =~= block_head().take(14));
    assert(block_head().take(14) =~= start_marker());
    lemma_with_block_twice(s, b1, managed_block(c2));
}

/// Writing the same changes twice gives what writing them once gives, where the
/// source has no end marker before the place of the block and no text of the
/// changes holds the end marker.
pub proof fn law_apply_twice(s: Seq<char>, c: Seq<(Seq<char>, Option<ValueView>)>)
    requires
        markers_in_order(s),
        ends_once(managed_block(c)),
    ensures
        applied(applied(s, c), c) == applied(s, c),
{
    law_rewrite_replaces_block(s, c, c);
}

/// No two entries share a key.
pub open spec fn keys_distinct<A>(s: Seq<(Seq<char>, A)>) -> bool {
    forall|i: int, j: int| 0 <= i < j < s.len() ==> (#[trigger] s[i]).0 != (#[trigger] s[j]).0
}

/// Two lists in key order with distinct keys and the same entries, as often,
/// are one list.
proof fn lemma_sorted_unique<A>(s: Seq<(Seq<char>, A)>, t: Seq<(Seq<char>, A)>)
    requires
        key_sorted(s),
        key_sorted(t),
        keys_distinct(s),
        keys_distinct(t),
        s.to_multiset() == t.to_multiset(),
    ensures
        s == t,
    decreases s.len(),
{
    broadcast use vstd::seq_lib::to_multiset_len;
    assert(s.len() == t.to_multiset().len());
    if s.len() > 0 {
        vstd::seq_lib::to_multiset_contains(s, t[0]);
        vstd::seq_lib::to_multiset_contains(t, s[0]);
        vstd::seq_lib::to_multiset_contains(s, s[0]);
        vstd::seq_lib::to_multiset_contains(t, t[0]);
        assert(s.contains(s[0]));
        assert(t.contains(t[0]));
        let p = choose|p: int| 0 <= p < t.len() && t[p] == s[0];
        let q = choose|q: int| 0 <= q < s.len() && s[q] == t[0];
        if p != 0 && q != 0 {
            assert(!crate::text::text_lt(t[p].0, t[0].0));
            assert(!crate::text::text_lt(s[q].0, s[0].0));
            if s[0].0 != t[0].0 {
                crate::text::lemma_text_lt_total(s[0].0, t[0].0);
            }
            assert(t[p].0 == t[0].0);
            assert(false);
        }
        assert(s[0] == t[0]);
        vstd::seq_lib::to_multiset_remove(s, 0);
        vstd::seq_lib::to_multiset_remove(t, 0);
        assert(s.remove(0) =~= s.drop_first());
        assert(t.remove(0) =~= t.drop_first());
        let s2 = s.drop_first();
        let t2 = t.drop_first();
        assert forall|i: int, j: int| 0 <= i < j < s2.len() implies !crate::text::text_lt(#[trigger] s2[j].0, #[trigger] s2[i].0) by {
            assert(s2[i] == s[i + 1] && s2[j] == s[j + 1]);
        }
        assert forall|i: int, j: int| 0 <= i < j < t2.len() implies !crate::text::text_lt(#[trigger] t2[j].0, #[trigger] t2[i].0) by {
            assert(t2[i] == t[i + 1] && t2[j] == t[j + 1]);
        }
        assert forall|i: int, j: int| 0 <= i < j < s2.len() implies (#[trigger] s2[i]).0 != (#[trigger] s2[j]).0 by {
            assert(s2[i] == s[i + 1] && s2[j] == s[j + 1]);
        }
        assert forall|i: int, j: int| 0 <= i < j < t2.len() implies (#[trigger] t2[i]).0 != (#[trigger] t2[j]).0 by {
            assert(t2[i] == t[i + 1] && t2[j] == t[j + 1]);
        }
        lemma_sorted_unique(s2, t2);
        assert(s =~= seq![s[0]] + s2);
        assert(t =~= seq![t[0]] + t2);
    }
}

/// Sorting by key a list with distinct keys keeps its keys distinct.
proof fn lemma_sorted_keys_distinct<A>(c: Seq<(Seq<char>, A)>)
    requires
        keys_distinct(c),
    ensures
        keys_distinct(sort_by_key(c)),
        sort_by_key(c).to_multiset() == c.to_multiset(),
        key_sorted(sort_by_key(c)),
{
    law_sort_orders(c);
    let t = sort_by_key(c);
    assert forall|i: int, j: int| 0 <= i < c.len() && 0 <= j < c.len() && i != j implies c[i] != c[j] by {
        if i < j {
            assert(c[i].0 != c[j].0);
        } else {
            assert(c[j].0 != c[i].0);
        }
    }
    crate::schema::lemma_same_elements(c, t);
    assert forall|i: int, j: int| 0 <= i < j < t.len() implies (#[trigger] t[i]).0 != (#[trigger] t[j]).0 by {
        assert(t[i] != t[j]);
        assert(t.contains(t[i]) && t.contains(t[j]));
        let a = choose|a: int| 0 <= a < c.len() && c[a] == t[i];
        let b = choose|b: int| 0 <= b < c.len() && c[b] == t[j];
        if a < b {
            assert(c[a].0 != c[b].0);
        } else if b < a {
            assert(c[b].0 != c[a].0);
        }
    }
}

/// The managed block depends only on the changes, not on their order: two
/// lists of changes with distinct keys and the same entries give one block.
pub proof fn law_block_ignores_order(c1: Seq<(Seq<char>, Option<ValueView>)>, c2: Seq<(Seq<char>, Option<ValueView>)>)
    requires
        keys_distinct(c1),
        keys_distinct(c2),
        forall|e: (Seq<char>, Option<ValueView>)| #[trigger] c1.contains(e) <==> c2.contains(e),
    ensures
        managed_block(c1) == managed_block(c2),
{
    assert forall|i: int, j: int| 0 <= i < c1.len() && 0 <= j < c1.len() && i != j implies c1[i] != c1[j] by {
        if i < j { assert(c1[i].0 != c1[j].0); } else { assert(c1[j].0 != c1[i].0); }
    }
    assert forall|i: int, j: int| 0 <= i < c2.len() && 0 <= j < c2.len() && i != j implies c2[i] != c2[j] by {
        if i < j { assert(c2[i].0 != c2[j].0); } else { assert(c2[j].0 != c2[i].0); }
    }
    c1.lemma_multiset_has_no_duplicates();
    c2.lemma_multiset_has_no_duplicates();
    assert forall|e: (Seq<char>, Option<ValueView>)| c1.to_multiset().count(e) == c2.to_multiset().count(e) by {
        vstd::seq_lib::to_multiset_contains(c1, e);
        vstd::seq_lib::to_multiset_contains(c2, e);
    }
    assert(c1.to_multiset() =~= c2.to_multiset());
    lemma_sorted_keys_distinct(c1);
    lemma_sorted_keys_distinct(c2);
    lemma_sorted_unique(sort_by_key(c1), sort_by_key(c2));
}

/// `i` is the index of the last `}` of `s`: `s` holds `}` there and nowhere
/// after it.
pub open spec fn is_last_brace(s: Seq<char>, i: int) -> bool {
    &&& 0 <= i < s.len()
    &&& s[i] == '}'
    &&& forall|j: int| i < j < s.len() ==> s[j] != '}'
}

/// A hand-written configuration without a managed block gets the block just
/// before its last `}` (the brace that closes its attribute set), on a line of
/// its own: every earlier `}` stays in front of the block and all that follows
/// the last one stays after it. Where it holds no `}`, the block goes at the
/// end.
pub proof fn law_block_before_last_brace(s: Seq<char>, c: Seq<(Seq<char>, Option<ValueView>)>)
    requires
        find_first(s, start_marker()) is None,
        !all_white_space(s),
    ensures
        s.contains('}') ==> exists|i: int| is_last_brace(s, i),
        forall|i: int| #[trigger] is_last_brace(s, i)
            ==> applied(s, c) == s.take(i) + "\n  "@ + managed_block(c) + "\n"@ + s.skip(i),
        !s.contains('}') ==> applied(s, c) == s + "\n"@ + managed_block(c),
{
    crate::text::lemma_last_before(s, '}', s.len() as int);
    match find_last(s, '}') {
        Some(k) => {
            assert(is_last_brace(s, k));
            assert forall|i: int| #[trigger] is_last_brace(s, i)
                implies applied(s, c) == s.take(i) + "\n  "@ + managed_block(c) + "\n"@ + s.skip(i) by {
                if i < k {
                    assert(s[k] == '}');
                } else if k < i {
                    assert(s[i] == '}');
                }
            }
            assert(s.contains('}'));
        },
        None => {
            assert forall|i: int| #[trigger] is_last_brace(s, i)
                implies applied(s, c) == s.take(i) + "\n  "@ + managed_block(c) + "\n"@ + s.skip(i) by {
                assert(s[i] == '}');
            }
            if s.contains('}') {
                let j = choose|j: int| 0 <= j < s.len() && s[j] == '}';
                assert(s[j] != '}');
            }
        },
    }
}

/// `i` is where `p` first occurs in `s`.
pub open spec fn first_occurrence(s: Seq<char>, p: Seq<char>, i: int) -> bool {
    &&& occurs_at(s, p, i)
    &&& forall|j: int| 0 <= j < i ==> !occurs_at(s, p, j)
}

/// A configuration that already has a managed block gets the new block in
/// place of the old one: from its first start marker to the end of its first
/// end marker (to the end of the text where it has none); everything before
/// and after stays. A blank configuration becomes a fresh one holding only the
/// block.
pub proof fn law_block_replaced(s: Seq<char>, c: Seq<(Seq<char>, Option<ValueView>)>)
    ensures
        forall|b: int, e: int| #[trigger] first_occurrence(s, "# nixcfg:start"@, b) && #[trigger] first_occurrence(s, "# nixcfg:end"@, e)
            ==> applied(s, c) == s.take(b) + managed_block(c) + s.skip(e + 12),
        forall|b: int| #[trigger] first_occurrence(s, "# nixcfg:start"@, b) && !crate::text::contains_text(s, "# nixcfg:end"@)
            ==> applied(s, c) == s.take(b) + managed_block(c),
        !crate::text::contains_text(s, "# nixcfg:start"@) && all_white_space(s)
            ==> applied(s, c) == "{ config, pkgs, ... }:\n{\n"@ + managed_block(c) + "\n}\n"@,
{
    lemma_markers();
    reveal_strlit("# nixcfg:end");
    reveal_strlit("# nixcfg:start");
    assert(start_marker() == "# nixcfg:start"@);
    assert(end_marker() == "# nixcfg:end"@);
    lemma_find_from(s, start_marker(), 0);
    lemma_find_from(s, end_marker(), 0);
    assert forall|b: int, e: int| #[trigger] first_occurrence(s, "# nixcfg:start"@, b) && #[trigger] first_occurrence(s, "# nixcfg:end"@, e)
        implies applied(s, c) == s.take(b) + managed_block(c) + s.skip(e + 12) by {
        let fb = find_first(s, start_marker()).unwrap();
        let fe = find_first(s, end_marker()).unwrap();
        if fb < b { assert(!occurs_at(s, start_marker(), fb)); }
        if b < fb { assert(occurs_at(s, start_marker(), b)); }
        if fe < e { assert(!occurs_at(s, end_marker(), fe)); }
        if e < fe { assert(occurs_at(s, end_marker(), e)); }
    }
    assert forall|b: int| #[trigger] first_occurrence(s, "# nixcfg:start"@, b) && !crate::text::contains_text(s, "# nixcfg:end"@)
        implies applied(s, c) == s.take(b) + managed_block(c) by {
        let fb = find_first(s, start_marker()).unwrap();
        if fb < b { assert(!occurs_at(s, start_marker(), fb)); }
        if b < fb { assert(occurs_at(s, start_marker(), b)); }
        assert(s.skip(s.len() as int) =~= Seq::<char>::empty());
        assert(s.take(b) + managed_block(c) + s.skip(s.len() as int) =~= s.take(b) + managed_block(c));
    }
}

} // verus!
