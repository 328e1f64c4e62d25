use vstd::prelude::*;

use indexmap::IndexMap;

use crate::option::NixOption;
use crate::string_map::{distinct_keys, entry_keys, seq_lookup, seq_with};
use crate::text::{before_char, concat, contains_text, lowercase, owned, starts_with, text_before, text_lt, views};
use crate::writer::{insert_pos, sort_by_key};
use crate::eval::present;
use crate::text::{contains_str, starts_with_text, to_lower, text_less};

verus! {

#[verifier::external_type_specification]
#[verifier::external_body]
#[verifier::reject_recursive_types(K)]
#[verifier::reject_recursive_types(V)]
#[verifier::reject_recursive_types(S)]
pub struct ExIndexMap<K, V, S>(IndexMap<K, V, S>);

/// The entries of a map from option names to options, in the map's order,
/// each key taken by its characters.
pub uninterp spec fn option_entries(m: IndexMap<String, NixOption>) -> Seq<(Seq<char>, NixOption)>;

/// The entries of a map from category names to option names, in the map's
/// order, each string taken by its characters.
pub uninterp spec fn category_entries(m: IndexMap<String, Vec<String>>) -> Seq<(Seq<char>, Seq<Seq<char>>)>;

/// `IndexMap::new`: an empty map.
#[verifier::external_body]
fn options_new() -> (m: IndexMap<String, NixOption>)
    ensures
        option_entries(m) == Seq::<(Seq<char>, NixOption)>::empty(),
{
    IndexMap::new()
}

/// `IndexMap::insert`: where an equal key is present, its entry keeps its key
/// and its place and takes the new value, and the old value is returned; else
/// the entry goes last and nothing is returned.
#[verifier::external_body]
fn options_insert(m: &mut IndexMap<String, NixOption>, key: String, value: NixOption) -> (r: Option<NixOption>)
    ensures
        option_entries(*final(m)) == seq_with(option_entries(*old(m)), key@, value),
        r == seq_lookup(option_entries(*old(m)), key@),
{
    m.insert(key, value)
}

/// `IndexMap::get`: the value of the entry whose key equals `key`.
#[verifier::external_body]
pub(crate) fn options_get<'a>(m: &'a IndexMap<String, NixOption>, key: &str) -> (r: Option<&'a NixOption>)
    ensures
        match r {
            Some(v) => seq_lookup(option_entries(*m), key@) == Some(*v),
            None => seq_lookup(option_entries(*m), key@) is None,
        },
{
    m.get(key)
}

/// `IndexMap::get_index`: the entry at index `i`, where there is one.
#[verifier::external_body]
pub(crate) fn options_get_index<'a>(m: &'a IndexMap<String, NixOption>, i: usize) -> (r: Option<(&'a String, &'a NixOption)>)
    ensures
        match r {
            Some((k, v)) => i < option_entries(*m).len() && k@ == option_entries(*m)[i as int].0
                && *v == option_entries(*m)[i as int].1,
            None => i >= option_entries(*m).len(),
        },
{
    m.get_index(i)
}

/// `IndexMap::len`: the number of entries.
#[verifier::external_body]
pub(crate) fn options_len(m: &IndexMap<String, NixOption>) -> (r: usize)
    ensures
        r == option_entries(*m).len(),
{
    m.len()
}

/// `IndexMap::new`: an empty map.
#[verifier::external_body]
fn categories_new() -> (m: IndexMap<String, Vec<String>>)
    ensures
        category_entries(m) == Seq::<(Seq<char>, Seq<Seq<char>>)>::empty(),
{
    IndexMap::new()
}

/// `IndexMap::insert`, as for the options map.
#[verifier::external_body]
fn categories_insert(m: &mut IndexMap<String, Vec<String>>, key: String, value: Vec<String>) -> (r: Option<Vec<String>>)
    ensures
        category_entries(*final(m)) == seq_with(category_entries(*old(m)), key@, views(value@)),
        match r {
            Some(v) => seq_lookup(category_entries(*old(m)), key@) == Some(views(v@)),
            None => seq_lookup(category_entries(*old(m)), key@) is None,
        },
{
    m.insert(key, value)
}

/// `IndexMap::get`, as for the options map.
#[verifier::external_body]
fn categories_get<'a>(m: &'a IndexMap<String, Vec<String>>, key: &str) -> (r: Option<&'a Vec<String>>)
    ensures
        match r {
            Some(v) => seq_lookup(category_entries(*m), key@) == Some(views(v@)),
            None => seq_lookup(category_entries(*m), key@) is None,
        },
{
    m.get(key)
}

/// `IndexMap::get_index`, as for the options map.
#[verifier::external_body]
fn categories_get_index<'a>(m: &'a IndexMap<String, Vec<String>>, i: usize) -> (r: Option<(&'a String, &'a Vec<String>)>)
    ensures
        match r {
            Some((k, v)) => i < category_entries(*m).len() && k@ == category_entries(*m)[i as int].0
                && views(v@) == category_entries(*m)[i as int].1,
            None => i >= category_entries(*m).len(),
        },
{
    m.get_index(i)
}

/// `IndexMap::len`, as for the options map.
#[verifier::external_body]
fn categories_len(m: &IndexMap<String, Vec<String>>) -> (r: usize)
    ensures
        r == category_entries(*m).len(),
{
    m.len()
}


// ---------------------------------------------------------------------------
// The schema store
// ---------------------------------------------------------------------------

/// The entries of the options map after inserting `opts` in order into an
/// empty one.
pub open spec fn options_from(opts: Seq<NixOption>) -> Seq<(Seq<char>, NixOption)>
    decreases opts.len(),
{
    if opts.len() == 0 {
        Seq::empty()
    } else {
        seq_with(options_from(opts.drop_last()), opts.last().name@, opts.last())
    }
}

/// The category of an option: the first segment of its dotted name.
pub open spec fn top_category(name: Seq<char>) -> Seq<char> {
    before_char(name, '.')
}

/// The categories map after filing the names of `opts` in order: each under its
/// category, a new category going last.
pub open spec fn categories_from(opts: Seq<NixOption>) -> Seq<(Seq<char>, Seq<Seq<char>>)>
    decreases opts.len(),
{
    if opts.len() == 0 {
        Seq::empty()
    } else {
        let prev = categories_from(opts.drop_last());
        let name = opts.last().name@;
        let c = top_category(name);
        seq_with(prev, c, match seq_lookup(prev, c) {
            Some(l) => l.push(name),
            None => seq![name],
        })
    }
}

/// The maps built from any list of options have distinct names, and each
/// option is filed under its own name.
pub proof fn lemma_from_options_wf(opts: Seq<NixOption>)
    ensures
        distinct_keys(entry_keys(options_from(opts))),
        distinct_keys(entry_keys(categories_from(opts))),
        forall|i: int| 0 <= i < options_from(opts).len() ==> (#[trigger] options_from(opts)[i]).1.name@ == options_from(opts)[i].0,
    decreases opts.len(),
{
    if opts.len() > 0 {
        let prev = options_from(opts.drop_last());
        let o = opts.last();
        lemma_from_options_wf(opts.drop_last());
        crate::string_map::lemma_seq_with(prev, o.name@, o);
        crate::string_map::lemma_seq_lookup(prev, o.name@);
        let cprev = categories_from(opts.drop_last());
        let c = top_category(o.name@);
        let l = match seq_lookup(cprev, c) {
            Some(l) => l.push(o.name@),
            None => seq![o.name@],
        };
        crate::string_map::lemma_seq_with(cprev, c, l);
        let cur = options_from(opts);
        assert forall|i: int| 0 <= i < cur.len() implies (#[trigger] cur[i]).1.name@ == cur[i].0 by {
            if i < prev.len() {
                if cur[i] != prev[i] {
                    assert(cur[i] == (prev[i].0, o));
                }
            }
        }
    }
}

/// Organises the flat list of NixOS options into a tree structure suitable
/// for TUI navigation.  The root categories are the top-level dotted segments
/// (e.g. "boot", "networking", "services", "users").
pub struct SchemaStore {
    /// All options by dotted name, in declaration order.
    pub options: IndexMap<String, NixOption>,
    /// Category → list of option names in that category.
    categories: IndexMap<String, Vec<String>>,
}

/// A copy of a list of strings.
fn copy_texts(v: &Vec<String>) -> (r: Vec<String>)
    ensures
        views(r@) == views(v@),
{
    let mut out: Vec<String> = Vec::new();
    let mut i: usize = 0;
    while i < v.len()
        invariant
            i <= v@.len(),
            views(out@) =~= views(v@).take(i as int),
        decreases v@.len() - i,
    {
        let ghost prev = out@;
        let x = v[i].clone();
        out.push(x);
        assert(views(out@) =~= views(prev).push(v@[i as int]@));
        i += 1;
    }
    assert(views(v@).take(v@.len() as int) =~= views(v@));
    out
}

/// The category of a dotted option name: its first segment.
pub fn top_level_category(dotted_name: &str) -> (r: String)
    ensures
        r@ == top_category(dotted_name@),
{
    text_before(dotted_name, '.')
}

impl SchemaStore {
    /// The entries of the options map.
    pub closed spec fn entries(self) -> Seq<(Seq<char>, NixOption)> {
        option_entries(self.options)
    }

    /// The entries of the categories map.
    pub closed spec fn category_table(self) -> Seq<(Seq<char>, Seq<Seq<char>>)> {
        category_entries(self.categories)
    }

    /// The names of the categories, in the order in which they were first met.
    pub open spec fn category_keys(self) -> Seq<Seq<char>> {
        entry_keys(self.category_table())
    }

    /// No name occurs twice in either map, and each option is filed under its
    /// own name.
    pub open spec fn wf(self) -> bool {
        &&& distinct_keys(entry_keys(self.entries()))
        &&& distinct_keys(self.category_keys())
        &&& forall|i: int| 0 <= i < self.entries().len() ==> (#[trigger] self.entries()[i]).1.name@ == self.entries()[i].0
    }

    pub fn from_options(opts: Vec<NixOption>) -> (r: Self)
        ensures
            r.entries() == options_from(opts@),
            r.category_table() == categories_from(opts@),
            r.wf(),
    {
        let mut options = options_new();
        let mut categories = categories_new();
        let ghost all = opts@;
        for opt in it: opts
            invariant
                it.seq() == all,
                option_entries(options) == options_from(all.take(it.index() as int)),
                category_entries(categories) == categories_from(all.take(it.index() as int)),
        {
            let ghost k = it.index() as int;
            assert(all.take(k + 1).drop_last() =~= all.take(k));
            assert(all.take(k + 1).last() == opt);
            let cat = top_level_category(opt.name.as_str());
            let mut list = match categories_get(&categories, cat.as_str()) {
                Some(l) => copy_texts(l),
                None => Vec::new(),
            };
            list.push(opt.name.clone());
            proof {
                match seq_lookup(category_entries(categories), cat@) {
                    Some(l) => assert(views(list@) =~= l.push(opt.name@)),
                    None => assert(views(list@) =~= seq![opt.name@]),
                }
            }
            categories_insert(&mut categories, cat, list);
            options_insert(&mut options, opt.name.clone(), opt);
        }
        assert(all.take(all.len() as int) =~= all);
        let r = SchemaStore { options, categories };
        proof { lemma_from_options_wf(all); }
        r
    }
}


/// Names in the order of std's `Ord` for strings.
pub open spec fn sort_names(s: Seq<Seq<char>>) -> Seq<Seq<char>> {
    sort_by_key(s.map_values(|k: Seq<char>| (k, ()))).map_values(|e: (Seq<char>, ())| e.0)
}

/// The path of the child of `prefix` that leads to `name`: `prefix`, a dot,
/// and the segment of `name` that follows `prefix.`.
pub open spec fn child_path(prefix: Seq<char>, name: Seq<char>) -> Seq<char> {
    prefix + "."@ + before_char(name.skip((prefix.len() + 1) as int), '.')
}

/// The paths of the children of `prefix` that lead to the first `n` names,
/// each once, in the order in which they are first met.
pub open spec fn child_paths(names: Seq<Seq<char>>, prefix: Seq<char>, n: int) -> Seq<Seq<char>>
    decreases n,
{
    if n <= 0 || n > names.len() {
        Seq::empty()
    } else {
        let prev = child_paths(names, prefix, n - 1);
        let name = names[n - 1];
        if starts_with(name, prefix + "."@) {
            let cp = child_path(prefix, name);
            if prev.contains(cp) {
                prev
            } else {
                prev.push(cp)
            }
        } else {
            prev
        }
    }
}

/// The options directly under `prefix`: for the empty prefix, the options named
/// like a category, in category order; else the options among the children of
/// `prefix`.
pub open spec fn children_under(
    entries: Seq<(Seq<char>, NixOption)>,
    categories: Seq<Seq<char>>,
    prefix: Seq<char>,
) -> Seq<NixOption> {
    if prefix.len() == 0 {
        present(sort_names(categories).map_values(|c: Seq<char>| seq_lookup(entries, c)))
    } else {
        present(child_paths(entry_keys(entries), prefix, entries.len() as int).map_values(|c: Seq<char>| seq_lookup(entries, c)))
    }
}

/// How well an option matches a lowercased query: 2 where its lowercased name
/// contains it, plus 1 where its lowercased description does.
pub open spec fn query_score(o: NixOption, q: Seq<char>) -> int {
    (if contains_text(lowercase(o.name@), q) { 2int } else { 0int }) + (if contains_text(lowercase(o.description@), q) { 1int } else { 0int })
}

/// The options among the first `n` entries that match `q` at all, with their
/// scores, in map order.
pub open spec fn hits(entries: Seq<(Seq<char>, NixOption)>, q: Seq<char>, n: int) -> Seq<(int, NixOption)>
    decreases n,
{
    if n <= 0 || n > entries.len() {
        Seq::empty()
    } else {
        let prev = hits(entries, q, n - 1);
        let o = entries[n - 1].1;
        if query_score(o, q) > 0 {
            prev.push((query_score(o, q), o))
        } else {
            prev
        }
    }
}

/// `a` ranks before `b`: a higher score, or the same score and a name that comes
/// first.
pub open spec fn ranks_before(a: (int, NixOption), b: (int, NixOption)) -> bool {
    a.0 > b.0 || (a.0 == b.0 && text_lt(a.1.name@, b.1.name@))
}

/// Where a hit goes among ranked hits, searching from `i`.
pub open spec fn rank_pos(s: Seq<(int, NixOption)>, x: (int, NixOption), i: int) -> int
    decreases s.len() - i,
{
    if i < 0 || i >= s.len() {
        s.len() as int
    } else if ranks_before(x, s[i]) {
        i
    } else {
        rank_pos(s, x, i + 1)
    }
}

/// The hits by rank, hits of equal rank in their order (what std's stable
/// `sort_by` leaves).
pub open spec fn rank_sort(s: Seq<(int, NixOption)>) -> Seq<(int, NixOption)>
    decreases s.len(),
{
    if s.len() == 0 {
        s
    } else {
        let rest = rank_sort(s.drop_last());
        rest.insert(rank_pos(rest, s.last(), 0), s.last())
    }
}

/// A collected hit, taken as its score and option.
pub open spec fn hit_view(e: (&NixOption, u8)) -> (int, NixOption) {
    (e.1 as int, *e.0)
}

/// What a search for `query` finds, best first.
pub open spec fn search_results(entries: Seq<(Seq<char>, NixOption)>, query: Seq<char>) -> Seq<NixOption> {
    rank_sort(hits(entries, lowercase(query), entries.len() as int)).map_values(|h: (int, NixOption)| h.1)
}

proof fn lemma_rank_pos(s: Seq<(int, NixOption)>, x: (int, NixOption), i: int)
    requires
        0 <= i <= s.len(),
    ensures
        i <= rank_pos(s, x, i) <= s.len(),
    decreases s.len() - i,
{
    if i < s.len() && !ranks_before(x, s[i]) {
        lemma_rank_pos(s, x, i + 1);
    }
}

/// Where `rank_pos` passes over hits that rank no lower than `x`, and stops at
/// one that `x` ranks before.
proof fn lemma_rank_pos_stops(s: Seq<(int, NixOption)>, x: (int, NixOption), i: int)
    requires
        0 <= i <= s.len(),
    ensures
        forall|j: int| i <= j < rank_pos(s, x, i) ==> !ranks_before(x, #[trigger] s[j]),
        rank_pos(s, x, i) < s.len() ==> ranks_before(x, s[rank_pos(s, x, i)]),
    decreases s.len() - i,
{
    if i < s.len() && !ranks_before(x, s[i]) {
        lemma_rank_pos_stops(s, x, i + 1);
    }
}

/// Of two hits at most one ranks before the other, and ranking is transitive.
proof fn lemma_ranks(a: (int, NixOption), b: (int, NixOption), c: (int, NixOption))
    ensures
        ranks_before(a, b) ==> !ranks_before(b, a),
        ranks_before(a, b) && ranks_before(b, c) ==> ranks_before(a, c),
{
    crate::text::lemma_text_lt_asym(a.1.name@, b.1.name@);
    if a.0 == b.0 && b.0 == c.0 && text_lt(a.1.name@, b.1.name@) && text_lt(b.1.name@, c.1.name@) {
        crate::text::lemma_text_lt_trans(a.1.name@, b.1.name@, c.1.name@);
    }
}

/// No hit ranks before a hit ahead of it.
pub open spec fn best_first(s: Seq<(int, NixOption)>) -> bool {
    forall|i: int, j: int| 0 <= i < j < s.len() ==> !ranks_before(#[trigger] s[j], #[trigger] s[i])
}

/// Ranking keeps every hit, as often as it occurs, and puts them best first.
pub proof fn law_rank_orders(s: Seq<(int, NixOption)>)
    ensures
        best_first(rank_sort(s)),
        rank_sort(s).to_multiset() == s.to_multiset(),
    decreases s.len(),
{
    if s.len() == 0 {
        return;
    }
    let rest = rank_sort(s.drop_last());
    let x = s.last();
    law_rank_orders(s.drop_last());
    lemma_rank_pos(rest, x, 0);
    lemma_rank_pos_stops(rest, x, 0);
    let p = rank_pos(rest, x, 0);
    let r = rest.insert(p, x);
    assert(rank_sort(s) == r);
    assert forall|i: int, j: int| 0 <= i < j < r.len() implies !ranks_before(#[trigger] r[j], #[trigger] r[i]) by {
        if j < p {
            assert(r[i] == rest[i] && r[j] == rest[j]);
        } else if j == p {
            assert(r[i] == rest[i] && r[j] == x);
        } else if i < p {
            assert(r[i] == rest[i] && r[j] == rest[j - 1]);
        } else if i == p {
            assert(r[i] == x && r[j] == rest[j - 1]);
            lemma_ranks(x, rest[p], rest[p]);
            if j - 1 > p {
                assert(!ranks_before(rest[j - 1], rest[p]));
                lemma_ranks(rest[j - 1], x, rest[p]);
            }
        } else {
            assert(r[i] == rest[i - 1] && r[j] == rest[j - 1]);
        }
    }
    vstd::seq_lib::to_multiset_insert(rest, p, x);
    vstd::seq_lib::to_multiset_build(s.drop_last(), x);
    assert(s.drop_last().push(x) =~= s);
}

/// A search finds the matching options best first: by score, ties by name;
/// and each matching option as often as the store holds it.
pub proof fn law_search_best_first(store: SchemaStore, query: Seq<char>)
    ensures
        ({
            let found = hits(store.entries(), lowercase(query), store.entries().len() as int);
            let ranked = rank_sort(found);
            &&& best_first(ranked)
            &&& ranked.to_multiset() == found.to_multiset()
            &&& search_results(store.entries(), query) == ranked.map_values(|h: (int, NixOption)| h.1)
        }),
{
    law_rank_orders(hits(store.entries(), lowercase(query), store.entries().len() as int));
}

/// The category names come out in order.
pub proof fn law_categories_sorted(store: SchemaStore)
    ensures
        forall|i: int, j: int| 0 <= i < j < sort_names(store.category_keys()).len()
            ==> !text_lt(#[trigger] sort_names(store.category_keys())[j], #[trigger] sort_names(store.category_keys())[i]),
        sort_names(store.category_keys()).len() == store.category_keys().len(),
{
    let keyed = store.category_keys().map_values(|k: Seq<char>| (k, ()));
    crate::writer::law_sort_orders(keyed);
    crate::writer::lemma_sort_len(keyed);
    let sorted = sort_by_key(keyed);
    let names = sort_names(store.category_keys());
    assert forall|i: int, j: int| 0 <= i < j < names.len() implies !text_lt(#[trigger] names[j], #[trigger] names[i]) by {
        assert(names[i] == sorted[i].0 && names[j] == sorted[j].0);
    }
}

/// Whether `x` is among `seen`.
pub(crate) fn seen_contains(seen: &Vec<String>, x: &str) -> (r: bool)
    ensures
        r == views(seen@).contains(x@),
{
    let mut i: usize = 0;
    while i < seen.len()
        invariant
            i <= seen@.len(),
            forall|j: int| 0 <= j < i ==> seen@[j]@ != x@,
        decreases seen@.len() - i,
    {
        if crate::text::same_text(seen[i].as_str(), x) {
            assert(views(seen@)[i as int] == x@);
            return true;
        }
        i += 1;
    }
    proof {
        if views(seen@).contains(x@) {
            let j = choose|j: int| 0 <= j < views(seen@).len() && views(seen@)[j] == x@;
            assert(seen@[j]@ == x@);
        }
    }
    false
}

impl SchemaStore {
    /// The option named `name`.
    pub fn option_named(&self, name: &str) -> (r: Option<&NixOption>)
        ensures
            match r {
                Some(o) => seq_lookup(self.entries(), name@) == Some(*o),
                None => seq_lookup(self.entries(), name@) is None,
            },
    {
        options_get(&self.options, name)
    }

    /// The name and option of the entry at index `i`, where there is one.
    pub fn option_at(&self, i: usize) -> (r: Option<(&String, &NixOption)>)
        ensures
            match r {
                Some((k, o)) => i < self.entries().len() && k@ == self.entries()[i as int].0
                    && *o == self.entries()[i as int].1,
                None => i >= self.entries().len(),
            },
    {
        options_get_index(&self.options, i)
    }

    /// Sorted list of top-level category names.
    pub fn category_names(&self) -> (r: Vec<&str>)
        ensures
            r@.map_values(|s: &str| s@) == sort_names(self.category_keys()),
    {
        let ghost keys = self.category_keys().map_values(|k: Seq<char>| (k, ()));
        let mut names: Vec<&str> = Vec::new();
        let n = categories_len(&self.categories);
        let mut i: usize = 0;
        while i < n
            invariant
                n == self.category_table().len(),
                keys == self.category_keys().map_values(|k: Seq<char>| (k, ())),
                i <= n,
                names@.len() == sort_by_key(keys.take(i as int)).len(),
                forall|t: int| 0 <= t < names@.len() ==> (#[trigger] names@[t])@ == sort_by_key(keys.take(i as int))[t].0,
            decreases n - i,
        {
            let ghost sorted = sort_by_key(keys.take(i as int));
            if let Some((k, _)) = categories_get_index(&self.categories, i) {
                assert(keys[i as int] == (k@, ()));
                let mut p: usize = 0;
                while p < names.len() && !text_less(k.as_str(), names[p])
                    invariant
                        sorted == sort_by_key(keys.take(i as int)),
                        names@.len() == sorted.len(),
                        forall|t: int| 0 <= t < names@.len() ==> (#[trigger] names@[t])@ == sorted[t].0,
                        p <= names@.len(),
                        insert_pos(sorted, k@, 0) == insert_pos(sorted, k@, p as int),
                    decreases names@.len() - p,
                {
                    p += 1;
                }
                proof {
                    assert(keys.take(i + 1).drop_last() =~= keys.take(i as int));
                    assert(keys.take(i + 1).last() == (k@, ()));
                }
                let ghost before = names@;
                names.insert(p, k.as_str());
                proof {
                    let ns = sorted.insert(p as int, (k@, ()));
                    assert(sort_by_key(keys.take(i + 1)) == ns);
                    assert forall|t: int| 0 <= t < names@.len() implies (#[trigger] names@[t])@ == ns[t].0 by {
                        if t < p {
                            assert(names@[t] == before[t]);
                        } else if t > p {
                            assert(names@[t] == before[t - 1]);
                        }
                    }
                }
            }
            i += 1;
        }
        assert(keys.take(n as int) =~= keys);
        assert(names@.map_values(|s: &str| s@) =~= sort_names(self.category_keys()));
        names
    }

    /// Options directly under a given dotted prefix (one level deep).
    pub fn children_of(&self, prefix: &str) -> (r: Vec<&NixOption>)
        ensures
            r@.map_values(|o: &NixOption| *o) == children_under(self.entries(), self.category_keys(), prefix@),
    {
        if prefix.is_empty() {
            // Root: return all top-level categories as synthetic options.
            let cats = self.category_names();
            let ghost cs = sort_names(self.category_keys());
            let mut out: Vec<&NixOption> = Vec::new();
            let mut i: usize = 0;
            while i < cats.len()
                invariant
                    cats@.map_values(|s: &str| s@) == cs,
                    i <= cats@.len(),
                    out@.map_values(|o: &NixOption| *o) == present(cs.take(i as int).map_values(|c: Seq<char>| seq_lookup(self.entries(), c))),
                decreases cats@.len() - i,
            {
                let ghost prev = out@;
                let ghost m = cs.take(i + 1).map_values(|c: Seq<char>| seq_lookup(self.entries(), c));
                assert(m.drop_last() =~= cs.take(i as int).map_values(|c: Seq<char>| seq_lookup(self.entries(), c)));
                assert(cs[i as int] == cats@[i as int]@);
                match self.option_named(cats[i]) {
                    Some(o) => {
                        out.push(o);
                        assert(out@.map_values(|o: &NixOption| *o) =~= prev.map_values(|o: &NixOption| *o).push(*o));
                    },
                    None => {},
                }
                i += 1;
            }
            assert(cs.take(cats@.len() as int) =~= cs);
            return out;
        }
        let search = concat(prefix, ".");
        proof { reveal_strlit("."); }
        let mut seen: Vec<String> = Vec::new();
        let mut out: Vec<&NixOption> = Vec::new();
        let n = options_len(&self.options);
        let ghost names = entry_keys(self.entries());
        let mut i: usize = 0;
        while i < n
            invariant
                n == self.entries().len(),
                names == entry_keys(self.entries()),
                search@ == prefix@ + "."@,
                prefix@.len() > 0,
                i <= n,
                views(seen@) == child_paths(names, prefix@, i as int),
                out@.map_values(|o: &NixOption| *o) == present(child_paths(names, prefix@, i as int).map_values(|c: Seq<char>| seq_lookup(self.entries(), c))),
            decreases n - i,
        {
            if let Some((name, _)) = self.option_at(i) {
                assert(names[i as int] == name@);
                if starts_with_text(name.as_str(), search.as_str()) {
                    proof { reveal_strlit("."); }
                    let rest_chars = crate::text::chars_of(name.as_str());
                    let plen = prefix.unicode_len();
                    assert(plen + 1 <= rest_chars@.len());
                    assert(plen + 1 <= rest_chars.len());
                    let remainder = crate::text::string_of(&rest_chars, plen + 1, rest_chars.len());
                    assert(remainder@ =~= name@.skip((prefix@.len() + 1) as int));
                    let next_seg = text_before(remainder.as_str(), '.');
                    let child = concat(search.as_str(), next_seg.as_str());
                    assert(child@ == child_path(prefix@, name@));
                    if !seen_contains(&seen, child.as_str()) {
                        let ghost prev = out@;
                        let ghost m = child_paths(names, prefix@, i + 1).map_values(|c: Seq<char>| seq_lookup(self.entries(), c));
                        assert(m.drop_last() =~= child_paths(names, prefix@, i as int).map_values(|c: Seq<char>| seq_lookup(self.entries(), c)));
                        match self.option_named(child.as_str()) {
                            Some(o) => {
                                out.push(o);
                                assert(out@.map_values(|o: &NixOption| *o) =~= prev.map_values(|o: &NixOption| *o).push(*o));
                            },
                            None => {},
                        }
                        let ghost sv = views(seen@);
                        seen.push(child);
                        assert(views(seen@) =~= sv.push(child_path(prefix@, name@)));
                    }
                }
            }
            i += 1;
        }
        out
    }

    /// Fuzzy text search over option names and descriptions.
    /// Returns matches sorted by relevance (simple contains match for now).
    pub fn search(&self, query: &str) -> (r: Vec<&NixOption>)
        ensures
            r@.map_values(|o: &NixOption| *o) == search_results(self.entries(), query@),
    {
        let q = to_lower(query);
        let n = options_len(&self.options);
        let mut results: Vec<(&NixOption, u8)> = Vec::new();
        let mut i: usize = 0;
        while i < n
            invariant
                n == self.entries().len(),
                q@ == lowercase(query@),
                i <= n,
                results@.len() == rank_sort(hits(self.entries(), q@, i as int)).len(),
                forall|t: int| 0 <= t < results@.len() ==> hit_view(#[trigger] results@[t]) == rank_sort(hits(self.entries(), q@, i as int))[t],
            decreases n - i,
        {
            let ghost sorted = rank_sort(hits(self.entries(), q@, i as int));
            if let Some((_, opt)) = self.option_at(i) {
                let name_lower = to_lower(opt.name.as_str());
                let desc_lower = to_lower(opt.description.as_str());
                let name_score: u8 = if contains_str(name_lower.as_str(), q.as_str()) { 2 } else { 0 };
                let desc_score: u8 = if contains_str(desc_lower.as_str(), q.as_str()) { 1 } else { 0 };
                let score = name_score + desc_score;
                assert(score as int == query_score(*opt, q@));
                if score > 0 {
                    let ghost x = (score as int, *opt);
                    let mut p: usize = 0;
                    while p < results.len()
                        && !(score > results[p].1 || (score == results[p].1 && text_less(opt.name.as_str(), results[p].0.name.as_str())))
                        invariant
                            results@.len() == sorted.len(),
                            forall|t: int| 0 <= t < results@.len() ==> hit_view(#[trigger] results@[t]) == sorted[t],
                            x == (score as int, *opt),
                            p <= results@.len(),
                            rank_pos(sorted, x, 0) == rank_pos(sorted, x, p as int),
                        decreases results@.len() - p,
                    {
                        assert(hit_view(results@[p as int]) == sorted[p as int]);
                        p += 1;
                    }
                    proof {
                        if p < results@.len() {
                            assert(hit_view(results@[p as int]) == sorted[p as int]);
                        }
                        lemma_rank_pos(sorted, x, 0);
                        assert(hits(self.entries(), q@, i + 1) == hits(self.entries(), q@, i as int).push(x));
                        assert(hits(self.entries(), q@, i + 1).drop_last() =~= hits(self.entries(), q@, i as int));
                    }
                    let ghost before = results@;
                    results.insert(p, (opt, score));
                    proof {
                        let ns = sorted.insert(p as int, x);
                        assert(rank_sort(hits(self.entries(), q@, i + 1)) == ns);
                        assert forall|t: int| 0 <= t < results@.len() implies hit_view(#[trigger] results@[t]) == ns[t] by {
                            if t < p {
                                assert(results@[t] == before[t]);
                            } else if t > p {
                                assert(results@[t] == before[t - 1]);
                            }
                        }
                    }
                } else {
                    assert(hits(self.entries(), q@, i + 1) == hits(self.entries(), q@, i as int));
                }
            }
            i += 1;
        }
        let ghost ranked = rank_sort(hits(self.entries(), q@, n as int));
        let mut out: Vec<&NixOption> = Vec::new();
        let mut j: usize = 0;
        while j < results.len()
            invariant
                results@.len() == ranked.len(),
                forall|t: int| 0 <= t < results@.len() ==> hit_view(#[trigger] results@[t]) == ranked[t],
                j <= results@.len(),
                out@.len() == j,
                forall|t: int| 0 <= t < j ==> *(#[trigger] out@[t]) == ranked[t].1,
            decreases results@.len() - j,
        {
            assert(hit_view(results@[j as int]) == ranked[j as int]);
            out.push(results[j].0);
            j += 1;
        }
        assert(out@.map_values(|o: &NixOption| *o) =~= ranked.map_values(|h: (int, NixOption)| h.1));
        out
    }

    /// Total number of known options.
    pub fn len(&self) -> (r: usize)
        ensures
            r == self.entries().len(),
    {
        options_len(&self.options)
    }

    pub fn is_empty(&self) -> (r: bool)
        ensures
            r == (self.entries().len() == 0),
    {
        options_len(&self.options) == 0
    }
}


/// The last option in `opts` named `k`.
pub open spec fn last_named(opts: Seq<NixOption>, k: Seq<char>) -> Option<NixOption>
    decreases opts.len(),
{
    if opts.len() == 0 {
        None
    } else if opts.last().name@ == k {
        Some(opts.last())
    } else {
        last_named(opts.drop_last(), k)
    }
}

/// A store built from a list of options finds each option by its name; where
/// several options share a name, the last one given.
pub proof fn law_lookup_by_name(opts: Seq<NixOption>, k: Seq<char>)
    ensures
        seq_lookup(options_from(opts), k) == last_named(opts, k),
    decreases opts.len(),
{
    if opts.len() > 0 {
        law_lookup_by_name(opts.drop_last(), k);
        lemma_from_options_wf(opts.drop_last());
        crate::string_map::lemma_seq_with(options_from(opts.drop_last()), opts.last().name@, opts.last());
    }
}

/// Every option of a store built from a list is filed under a category, the
/// first segment of its name.
pub proof fn law_every_option_has_category(opts: Seq<NixOption>, i: int)
    requires
        0 <= i < opts.len(),
    ensures
        seq_lookup(categories_from(opts), top_category(opts[i].name@)) is Some,
    decreases opts.len(),
{
    let prev = categories_from(opts.drop_last());
    let name = opts.last().name@;
    let c = top_category(name);
    lemma_from_options_wf(opts.drop_last());
    crate::string_map::lemma_seq_with(prev, c, match seq_lookup(prev, c) {
        Some(l) => l.push(name),
        None => seq![name],
    });
    if i < opts.len() - 1 {
        law_every_option_has_category(opts.drop_last(), i);
        assert(opts.drop_last()[i] == opts[i]);
    }
}

/// A search depends on the query only through its lowercase form: searches that
/// differ only in case find the same options in the same order.
pub proof fn law_search_ignores_case(store: SchemaStore, q1: Seq<char>, q2: Seq<char>)
    requires
        lowercase(q1) == lowercase(q2),
    ensures
        search_results(store.entries(), q1) == search_results(store.entries(), q2),
{
}


/// The names of `s`, each once, in the order in which they are first met.
pub open spec fn first_met(s: Seq<Seq<char>>) -> Seq<Seq<char>>
    decreases s.len(),
{
    if s.len() == 0 {
        s
    } else {
        let prev = first_met(s.drop_last());
        if prev.contains(s.last()) {
            prev
        } else {
            prev.push(s.last())
        }
    }
}

proof fn lemma_first_met(s: Seq<Seq<char>>)
    ensures
        forall|x: Seq<char>| #[trigger] first_met(s).contains(x) <==> s.contains(x),
        first_met(s).no_duplicates(),
    decreases s.len(),
{
    if s.len() > 0 {
        lemma_first_met(s.drop_last());
        assert forall|x: Seq<char>| #[trigger] first_met(s).contains(x) <==> s.contains(x) by {
            if s.drop_last().contains(x) {
                let j = choose|j: int| 0 <= j < s.drop_last().len() && s.drop_last()[j] == x;
                assert(s[j] == x);
            }
            if s.contains(x) && x != s.last() {
                let j = choose|j: int| 0 <= j < s.len() && s[j] == x;
                assert(s.drop_last()[j] == x);
            }
            let prev = first_met(s.drop_last());
            if !prev.contains(s.last()) {
                assert(prev.push(s.last())[prev.len() as int] == s.last());
                if prev.contains(x) {
                    let j = choose|j: int| 0 <= j < prev.len() && prev[j] == x;
                    assert(prev.push(s.last())[j] == x);
                }
                if prev.push(s.last()).contains(x) && x != s.last() {
                    let j = choose|j: int| 0 <= j < prev.len() + 1 && prev.push(s.last())[j] == x;
                    assert(prev[j] == x);
                }
            }
        }
    }
}

/// The keys of `p` with `k` mapped: unchanged where `k` is a key, else `k` last.
proof fn lemma_keys_with<A>(p: Seq<(Seq<char>, A)>, k: Seq<char>, v: A)
    ensures
        entry_keys(seq_with(p, k, v)) == if entry_keys(p).contains(k) {
            entry_keys(p)
        } else {
            entry_keys(p).push(k)
        },
{
    crate::string_map::lemma_position_from(entry_keys(p), k, 0);
    match crate::string_map::position_from(entry_keys(p), k, 0) {
        Some(i) => {
            assert(entry_keys(p)[i] == k);
            assert(entry_keys(seq_with(p, k, v)) =~= entry_keys(p));
        },
        None => {
            assert(entry_keys(seq_with(p, k, v)) =~= entry_keys(p).push(k));
        },
    }
}

/// A store built from a list keeps its options in the order in which their
/// names are first met, and its categories in the order in which they are
/// first met.
pub proof fn law_store_order(opts: Seq<NixOption>)
    ensures
        entry_keys(options_from(opts)) == first_met(opts.map_values(|o: NixOption| o.name@)),
        entry_keys(categories_from(opts)) == first_met(opts.map_values(|o: NixOption| top_category(o.name@))),
    decreases opts.len(),
{
    if opts.len() > 0 {
        law_store_order(opts.drop_last());
        let o = opts.last();
        assert(opts.drop_last().map_values(|o: NixOption| o.name@) =~= opts.map_values(|o: NixOption| o.name@).drop_last());
        assert(opts.drop_last().map_values(|o: NixOption| top_category(o.name@))
            =~= opts.map_values(|o: NixOption| top_category(o.name@)).drop_last());
        lemma_keys_with(options_from(opts.drop_last()), o.name@, o);
        let cprev = categories_from(opts.drop_last());
        let c = top_category(o.name@);
        lemma_keys_with(cprev, c, match seq_lookup(cprev, c) {
            Some(l) => l.push(o.name@),
            None => seq![o.name@],
        });
    }
}

/// A sequence with the same elements, as often, as one without duplicates has
/// none either, and holds the same elements.
pub(crate) proof fn lemma_same_elements<A>(s: Seq<A>, t: Seq<A>)
    requires
        s.no_duplicates(),
        t.to_multiset() == s.to_multiset(),
    ensures
        t.no_duplicates(),
        forall|x: A| #[trigger] t.contains(x) <==> s.contains(x),
{
    s.lemma_multiset_has_no_duplicates();
    t.lemma_multiset_has_no_duplicates_conv();
    assert forall|x: A| #[trigger] t.contains(x) <==> s.contains(x) by {
        vstd::seq_lib::to_multiset_contains(t, x);
        vstd::seq_lib::to_multiset_contains(s, x);
    }
}

/// The category names of a store built from a list come out in order, each
/// once: exactly the first segments of the names of the options given.
pub proof fn law_category_names(opts: Seq<NixOption>)
    ensures
        ({
            let names = sort_names(entry_keys(categories_from(opts)));
            &&& forall|i: int, j: int| 0 <= i < j < names.len()
                ==> #[trigger] names[i] != #[trigger] names[j] && !text_lt(names[j], names[i])
            &&& forall|c: Seq<char>| #[trigger] names.contains(c)
                <==> exists|i: int| 0 <= i < opts.len() && top_category(#[trigger] opts[i].name@) == c
        }),
{
    let keys = entry_keys(categories_from(opts));
    let cats = opts.map_values(|o: NixOption| top_category(o.name@));
    law_store_order(opts);
    lemma_first_met(cats);
    let keyed = keys.map_values(|k: Seq<char>| (k, ()));
    assert forall|i: int, j: int| 0 <= i < keyed.len() && 0 <= j < keyed.len() && i != j implies keyed[i] != keyed[j] by {
        assert(keys[i] != keys[j]);
    }
    crate::writer::law_sort_orders(keyed);
    let sorted = sort_by_key(keyed);
    lemma_same_elements(keyed, sorted);
    let names = sort_names(keys);
    assert forall|i: int, j: int| 0 <= i < j < names.len()
        implies #[trigger] names[i] != #[trigger] names[j] && !text_lt(names[j], names[i]) by {
        assert(names[i] == sorted[i].0 && names[j] == sorted[j].0);
        assert(sorted[i] != sorted[j]);
        assert(!text_lt(sorted[j].0, sorted[i].0));
        if names[i] == names[j] {
            let (a, u) = sorted[i];
            let (b, w) = sorted[j];
            assert(u == w);
            assert(sorted[i] == sorted[j]);
        }
    }
    assert forall|c: Seq<char>| #[trigger] names.contains(c)
        <==> exists|i: int| 0 <= i < opts.len() && top_category(#[trigger] opts[i].name@) == c by {
        if names.contains(c) {
            let j = choose|j: int| 0 <= j < names.len() && names[j] == c;
            assert(sorted[j] == (c, ()));
            assert(sorted.contains((c, ())));
            assert(keyed.contains((c, ())));
            let m = choose|m: int| 0 <= m < keyed.len() && keyed[m] == (c, ());
            assert(keys[m] == c);
            assert(keys.contains(c));
            assert(cats.contains(c));
            let i = choose|i: int| 0 <= i < cats.len() && cats[i] == c;
            assert(top_category(opts[i].name@) == c);
        }
        if exists|i: int| 0 <= i < opts.len() && top_category(#[trigger] opts[i].name@) == c {
            let i = choose|i: int| 0 <= i < opts.len() && top_category(#[trigger] opts[i].name@) == c;
            assert(cats[i] == c);
            assert(keys.contains(c));
            let m = choose|m: int| 0 <= m < keys.len() && keys[m] == c;
            assert(keyed[m] == (c, ()));
            assert(sorted.contains((c, ())));
            let j = choose|j: int| 0 <= j < sorted.len() && sorted[j] == (c, ());
            assert(names[j] == c);
        }
    }
}

/// The hit that the entry at `m` gives for `q`.
pub open spec fn hit_of(entries: Seq<(Seq<char>, NixOption)>, q: Seq<char>, m: int) -> (int, NixOption) {
    (query_score(entries[m].1, q), entries[m].1)
}

/// `h` is the hit of a matching entry at `m`.
pub open spec fn is_hit_of(h: (int, NixOption), entries: Seq<(Seq<char>, NixOption)>, q: Seq<char>, m: int) -> bool {
    h == hit_of(entries, q, m) && query_score(entries[m].1, q) > 0
}

/// `h` is the hit of a matching entry among the first `n`.
pub open spec fn hit_among(h: (int, NixOption), entries: Seq<(Seq<char>, NixOption)>, q: Seq<char>, n: int) -> bool {
    exists|m: int| 0 <= m < n && #[trigger] is_hit_of(h, entries, q, m)
}

/// Each hit among the first `n` entries is the hit of a matching entry, each
/// matching entry gives one, and with distinct names no two hits share a name.
#[verifier::spinoff_prover]
proof fn lemma_hits(entries: Seq<(Seq<char>, NixOption)>, q: Seq<char>, n: int)
    requires
        0 <= n <= entries.len(),
        distinct_keys(entry_keys(entries)),
        forall|i: int| 0 <= i < entries.len() ==> (#[trigger] entries[i]).1.name@ == entries[i].0,
    ensures
        forall|t: int| 0 <= t < hits(entries, q, n).len() ==> #[trigger] hit_among(hits(entries, q, n)[t], entries, q, n),
        forall|m: int| 0 <= m < n && query_score(#[trigger] entries[m].1, q) > 0
            ==> hits(entries, q, n).contains(hit_of(entries, q, m)),
        forall|a: int, b: int| 0 <= a < b < hits(entries, q, n).len()
            ==> (#[trigger] hits(entries, q, n)[a]).1.name@ != (#[trigger] hits(entries, q, n)[b]).1.name@,
    decreases n,
{
    if n > 0 {
        lemma_hits(entries, q, n - 1);
        let prev = hits(entries, q, n - 1);
        let cur = hits(entries, q, n);
        let o = entries[n - 1].1;
        if query_score(o, q) > 0 {
            assert(cur == prev.push(hit_of(entries, q, n - 1)));
            assert forall|t: int| 0 <= t < cur.len() implies #[trigger] hit_among(cur[t], entries, q, n) by {
                if t < prev.len() {
                    assert(cur[t] == prev[t]);
                    assert(hit_among(prev[t], entries, q, n - 1));
                    let m = choose|m: int| 0 <= m < n - 1 && #[trigger] is_hit_of(prev[t], entries, q, m);
                    assert(is_hit_of(cur[t], entries, q, m));
                } else {
                    assert(is_hit_of(cur[t], entries, q, n - 1));
                }
            }
            assert forall|m: int| 0 <= m < n && query_score(#[trigger] entries[m].1, q) > 0
                implies cur.contains(hit_of(entries, q, m)) by {
                if m < n - 1 {
                    let t = choose|t: int| 0 <= t < prev.len() && prev[t] == hit_of(entries, q, m);
                    assert(cur[t] == prev[t]);
                } else {
                    assert(cur[prev.len() as int] == hit_of(entries, q, m));
                }
            }
            assert forall|a: int, b: int| 0 <= a < b < cur.len()
                implies (#[trigger] cur[a]).1.name@ != (#[trigger] cur[b]).1.name@ by {
                assert(cur[a] == prev[a]);
                if b < prev.len() {
                    assert(cur[b] == prev[b]);
                } else {
                    assert(hit_among(prev[a], entries, q, n - 1));
                    let m = choose|m: int| 0 <= m < n - 1 && #[trigger] is_hit_of(prev[a], entries, q, m);
                    assert(entry_keys(entries)[m] != entry_keys(entries)[n - 1]);
                }
            }
        } else {
            assert(cur == prev);
            assert forall|m: int| 0 <= m < n && query_score(#[trigger] entries[m].1, q) > 0
                implies cur.contains(hit_of(entries, q, m)) by {
                if m == n - 1 {
                    assert(false);
                }
            }
            assert forall|t: int| 0 <= t < cur.len() implies #[trigger] hit_among(cur[t], entries, q, n) by {
                assert(cur[t] == prev[t]);
                assert(hit_among(prev[t], entries, q, n - 1));
                let m = choose|m: int| 0 <= m < n - 1 && #[trigger] is_hit_of(prev[t], entries, q, m);
                assert(is_hit_of(cur[t], entries, q, m));
            }
        }
    } else {
        assert(hits(entries, q, n).len() == 0);
    }
}

/// A search finds each matching option once: exactly the options of the store
/// whose name or description holds the lowercased query, no two of them
/// sharing a name.
pub proof fn law_search_finds_each_once(store: SchemaStore, query: Seq<char>)
    requires
        store.wf(),
    ensures
        ({
            let r = search_results(store.entries(), query);
            &&& forall|i: int, j: int| 0 <= i < j < r.len() ==> (#[trigger] r[i]).name@ != (#[trigger] r[j]).name@
            &&& forall|o: NixOption| #[trigger] r.contains(o) <==> exists|m: int|
                0 <= m < store.entries().len() && (#[trigger] store.entries()[m]).1 == o
                    && query_score(o, lowercase(query)) > 0
        }),
{
    let entries = store.entries();
    let q = lowercase(query);
    let n = entries.len() as int;
    let found = hits(entries, q, n);
    lemma_hits(entries, q, n);
    law_rank_orders(found);
    let ranked = rank_sort(found);
    assert forall|a: int, b: int| 0 <= a < found.len() && 0 <= b < found.len() && a != b implies found[a] != found[b] by {
        if a < b {
            assert(found[a].1.name@ != found[b].1.name@);
        } else {
            assert(found[b].1.name@ != found[a].1.name@);
        }
    }
    lemma_same_elements(found, ranked);
    let r = search_results(store.entries(), query);
    assert(r.len() == ranked.len());
    assert forall|i: int, j: int| 0 <= i < j < r.len() implies (#[trigger] r[i]).name@ != (#[trigger] r[j]).name@ by {
        assert(r[i] == ranked[i].1 && r[j] == ranked[j].1);
        assert(ranked[i] != ranked[j]);
        assert(ranked.contains(ranked[i]) && ranked.contains(ranked[j]));
        let a = choose|a: int| 0 <= a < found.len() && found[a] == ranked[i];
        let b = choose|b: int| 0 <= b < found.len() && found[b] == ranked[j];
        if a < b {
            assert(found[a].1.name@ != found[b].1.name@);
        } else if b < a {
            assert(found[b].1.name@ != found[a].1.name@);
        }
    }
    assert forall|o: NixOption| #[trigger] r.contains(o) <==> exists|m: int|
        0 <= m < entries.len() && (#[trigger] entries[m]).1 == o && query_score(o, q) > 0 by {
        if r.contains(o) {
            let i = choose|i: int| 0 <= i < r.len() && r[i] == o;
            assert(r[i] == ranked[i].1);
            assert(ranked.contains(ranked[i]));
            let t = choose|t: int| 0 <= t < found.len() && found[t] == ranked[i];
            assert(hit_among(found[t], entries, q, n));
            let m = choose|m: int| 0 <= m < n && #[trigger] is_hit_of(found[t], entries, q, m);
            assert(entries[m].1 == o);
        }
        if exists|m: int| 0 <= m < entries.len() && (#[trigger] entries[m]).1 == o && query_score(o, q) > 0 {
            let m = choose|m: int| 0 <= m < entries.len() && (#[trigger] entries[m]).1 == o && query_score(o, q) > 0;
            assert(query_score(entries[m].1, q) > 0);
            assert(found.contains(hit_of(entries, q, m)));
            assert(ranked.contains((query_score(o, q), o)));
            let i = choose|i: int| 0 <= i < ranked.len() && ranked[i] == (query_score(o, q), o);
            assert(r[i] == o);
        }
    }
}

/// What `present` keeps was present in `s`.
proof fn lemma_present<A>(s: Seq<Option<A>>)
    ensures
        forall|i: int| 0 <= i < present(s).len() ==> s.contains(Some(#[trigger] present(s)[i])),
    decreases s.len(),
{
    if s.len() > 0 {
        lemma_present(s.drop_last());
        let rest = present(s.drop_last());
        assert forall|i: int| 0 <= i < present(s).len() implies s.contains(Some(#[trigger] present(s)[i])) by {
            if i < rest.len() {
                assert(present(s)[i] == rest[i]);
                let j = choose|j: int| 0 <= j < s.drop_last().len() && s.drop_last()[j] == Some(rest[i]);
                assert(s[j] == Some(rest[i]));
            } else {
                assert(s[s.len() - 1] == Some(present(s)[i]));
            }
        }
    }
}

/// `c` is one level below `prefix`: it starts with `prefix` and a dot, and no
/// dot follows.
pub open spec fn one_below(c: Seq<char>, prefix: Seq<char>) -> bool {
    &&& starts_with(c, prefix + "."@)
    &&& !c.skip((prefix.len() + 1) as int).contains('.')
}

/// Every child path is one level below the prefix.
proof fn lemma_child_paths(names: Seq<Seq<char>>, prefix: Seq<char>, n: int)
    ensures
        forall|j: int| 0 <= j < child_paths(names, prefix, n).len() ==> one_below(#[trigger] child_paths(names, prefix, n)[j], prefix),
    decreases n,
{
    if n > 0 && n <= names.len() {
        lemma_child_paths(names, prefix, n - 1);
        let prev = child_paths(names, prefix, n - 1);
        let name = names[n - 1];
        if starts_with(name, prefix + "."@) {
            let cp = child_path(prefix, name);
            let rest = name.skip((prefix.len() + 1) as int);
            let b = before_char(rest, '.');
            crate::text::lemma_char_from(rest, '.', 0);
            reveal_strlit(".");
            assert(cp.take((prefix + "."@).len() as int) =~= prefix + "."@);
            assert(cp.skip((prefix.len() + 1) as int) =~= b);
            assert(!b.contains('.')) by {
                if b.contains('.') {
                    let j = choose|j: int| 0 <= j < b.len() && b[j] == '.';
                    assert(rest[j] == '.');
                }
            }
            assert(one_below(cp, prefix));
            assert forall|j: int| 0 <= j < child_paths(names, prefix, n).len()
                implies one_below(#[trigger] child_paths(names, prefix, n)[j], prefix) by {
                if j < prev.len() {
                    assert(child_paths(names, prefix, n)[j] == prev[j]);
                }
            }
        }
    }
}

/// The children of a prefix are one level below it: each is named by the
/// prefix, a dot and one more segment. The children of the empty prefix are
/// options named like a category.
pub proof fn law_children_one_level(store: SchemaStore, prefix: Seq<char>)
    requires
        store.wf(),
    ensures
        ({
            let r = children_under(store.entries(), store.category_keys(), prefix);
            &&& prefix.len() > 0 ==> forall|i: int| 0 <= i < r.len() ==> one_below((#[trigger] r[i]).name@, prefix)
            &&& prefix.len() == 0 ==> forall|i: int| 0 <= i < r.len() ==> store.category_keys().contains((#[trigger] r[i]).name@)
        }),
{
    let entries = store.entries();
    let r = children_under(entries, store.category_keys(), prefix);
    let paths = if prefix.len() > 0 {
        child_paths(entry_keys(entries), prefix, entries.len() as int)
    } else {
        sort_names(store.category_keys())
    };
    let looked = paths.map_values(|c: Seq<char>| seq_lookup(entries, c));
    assert(r == present(looked));
    lemma_present(looked);
    lemma_child_paths(entry_keys(entries), prefix, entries.len() as int);
    let keys = store.category_keys();
    let keyed = keys.map_values(|k: Seq<char>| (k, ()));
    assert forall|i: int, j: int| 0 <= i < keyed.len() && 0 <= j < keyed.len() && i != j implies keyed[i] != keyed[j] by {
        assert(keys[i] != keys[j]);
    }
    crate::writer::law_sort_orders(keyed);
    let sorted = sort_by_key(keyed);
    lemma_same_elements(keyed, sorted);
    assert forall|i: int| 0 <= i < r.len() implies (prefix.len() > 0 ==> one_below((#[trigger] r[i]).name@, prefix))
        && (prefix.len() == 0 ==> keys.contains(r[i].name@)) by {
        let o = r[i];
        let j = choose|j: int| 0 <= j < looked.len() && looked[j] == Some(o);
        let c = paths[j];
        assert(seq_lookup(entries, c) == Some(o));
        crate::string_map::lemma_seq_lookup(entries, c);
        let p = crate::string_map::position_from(entry_keys(entries), c, 0).unwrap();
        assert(entries[p].1 == o && entries[p].0 == c);
        assert(o.name@ == c);
        if prefix.len() == 0 {
            assert(sorted[j].0 == c);
            assert(sorted.contains(sorted[j]));
            assert(keyed.contains(sorted[j]));
            let m = choose|m: int| 0 <= m < keyed.len() && keyed[m] == sorted[j];
            assert(keys[m] == c);
        }
    }
}

/// What was present in `s` is kept by `present`.
proof fn lemma_present_keeps<A>(s: Seq<Option<A>>, x: A)
    requires
        s.contains(Some(x)),
    ensures
        present(s).contains(x),
    decreases s.len(),
{
    let rest = present(s.drop_last());
    if s.last() == Some(x) {
        assert(present(s) == rest.push(x));
        assert(present(s)[rest.len() as int] == x);
    } else {
        let j = choose|j: int| 0 <= j < s.len() && s[j] == Some(x);
        assert(s.drop_last()[j] == Some(x));
        lemma_present_keeps(s.drop_last(), x);
        let t = choose|t: int| 0 <= t < rest.len() && rest[t] == x;
        assert(present(s)[t] == x);
    }
}

/// Where the present options of `s` have distinct names, `present` keeps no
/// two with the same name.
proof fn lemma_present_names(s: Seq<Option<NixOption>>)
    requires
        forall|i: int, j: int| 0 <= i < j < s.len() && (#[trigger] s[i]) is Some && (#[trigger] s[j]) is Some
            ==> s[i]->0.name@ != s[j]->0.name@,
    ensures
        forall|a: int, b: int| 0 <= a < b < present(s).len() ==> (#[trigger] present(s)[a]).name@ != (#[trigger] present(s)[b]).name@,
    decreases s.len(),
{
    if s.len() > 0 {
        let d = s.drop_last();
        assert forall|i: int, j: int| 0 <= i < j < d.len() && (#[trigger] d[i]) is Some && (#[trigger] d[j]) is Some
            implies d[i]->0.name@ != d[j]->0.name@ by {
            assert(d[i] == s[i] && d[j] == s[j]);
        }
        lemma_present_names(d);
        lemma_present(d);
        let rest = present(d);
        if let Some(x) = s.last() {
            assert forall|a: int, b: int| 0 <= a < b < present(s).len()
                implies (#[trigger] present(s)[a]).name@ != (#[trigger] present(s)[b]).name@ by {
                assert(present(s)[a] == rest[a]);
                if b < rest.len() {
                    assert(present(s)[b] == rest[b]);
                } else {
                    assert(present(s)[b] == x);
                    assert(d.contains(Some(rest[a])));
                    let i = choose|i: int| 0 <= i < d.len() && d[i] == Some(rest[a]);
                    assert(s[i] == Some(rest[a]));
                    assert(s[s.len() - 1] == Some(x));
                }
            }
        }
    }
}

/// The child paths name each child once, and the child of every name under
/// the prefix.
proof fn lemma_child_paths_cover(names: Seq<Seq<char>>, prefix: Seq<char>, n: int)
    requires
        0 <= n <= names.len(),
    ensures
        child_paths(names, prefix, n).no_duplicates(),
        forall|m: int| 0 <= m < n && starts_with(#[trigger] names[m], prefix + "."@)
            ==> child_paths(names, prefix, n).contains(child_path(prefix, names[m])),
    decreases n,
{
    if n > 0 {
        lemma_child_paths_cover(names, prefix, n - 1);
        let prev = child_paths(names, prefix, n - 1);
        let cur = child_paths(names, prefix, n);
        let name = names[n - 1];
        if starts_with(name, prefix + "."@) && !prev.contains(child_path(prefix, name)) {
            let cp = child_path(prefix, name);
            assert(cur == prev.push(cp));
            assert(cur[prev.len() as int] == cp);
            assert forall|m: int| 0 <= m < n && starts_with(#[trigger] names[m], prefix + "."@)
                implies cur.contains(child_path(prefix, names[m])) by {
                if m < n - 1 {
                    let t = choose|t: int| 0 <= t < prev.len() && prev[t] == child_path(prefix, names[m]);
                    assert(cur[t] == prev[t]);
                }
            }
        } else {
            assert(cur == prev);
        }
    }
}

/// A name one level below the prefix is its own child path.
proof fn lemma_own_child(name: Seq<char>, prefix: Seq<char>)
    requires
        one_below(name, prefix),
    ensures
        child_path(prefix, name) == name,
{
    let rest = name.skip((prefix.len() + 1) as int);
    crate::text::lemma_char_from(rest, '.', 0);
    if let Some(i) = crate::text::char_from(rest, '.', 0) {
        assert(rest.contains('.'));
    }
    reveal_strlit(".");
    assert(name.take((prefix + "."@).len() as int) == prefix + "."@);
    assert(child_path(prefix, name) =~= name);
}

/// The children of a non-empty prefix are every option one level below it,
/// each once.
pub proof fn law_children_all_once(store: SchemaStore, prefix: Seq<char>)
    requires
        store.wf(),
        prefix.len() > 0,
    ensures
        ({
            let r = children_under(store.entries(), store.category_keys(), prefix);
            &&& forall|m: int| 0 <= m < store.entries().len() && one_below(#[trigger] store.entries()[m].0, prefix)
                ==> r.contains(store.entries()[m].1)
            &&& forall|a: int, b: int| 0 <= a < b < r.len() ==> (#[trigger] r[a]).name@ != (#[trigger] r[b]).name@
        }),
{
    let entries = store.entries();
    let keys = entry_keys(entries);
    let n = entries.len() as int;
    let paths = child_paths(keys, prefix, n);
    let looked = paths.map_values(|c: Seq<char>| seq_lookup(entries, c));
    let r = children_under(entries, store.category_keys(), prefix);
    assert(r == present(looked));
    lemma_child_paths_cover(keys, prefix, n);
    assert forall|m: int| 0 <= m < entries.len() && one_below(#[trigger] entries[m].0, prefix) implies r.contains(entries[m].1) by {
        let name = entries[m].0;
        assert(keys[m] == name);
        lemma_own_child(name, prefix);
        assert(paths.contains(name));
        let t = choose|t: int| 0 <= t < paths.len() && paths[t] == name;
        crate::string_map::lemma_seq_lookup(entries, name);
        assert(looked[t] == Some(entries[m].1));
        lemma_present_keeps(looked, entries[m].1);
    }
    assert forall|i: int, j: int| 0 <= i < j < looked.len() && (#[trigger] looked[i]) is Some && (#[trigger] looked[j]) is Some
        implies looked[i]->0.name@ != looked[j]->0.name@ by {
        crate::string_map::lemma_seq_lookup(entries, paths[i]);
        crate::string_map::lemma_seq_lookup(entries, paths[j]);
        let pi = crate::string_map::position_from(keys, paths[i], 0).unwrap();
        let pj = crate::string_map::position_from(keys, paths[j], 0).unwrap();
        assert(entries[pi].1.name@ == entries[pi].0);
        assert(entries[pj].1.name@ == entries[pj].0);
        assert(paths[i] != paths[j]);
    }
    lemma_present_names(looked);
}

/// Where the present options of `s` come in strict name order, `present`
/// keeps them in that order.
proof fn lemma_present_ordered(s: Seq<Option<NixOption>>)
    requires
        forall|i: int, j: int| 0 <= i < j < s.len() && (#[trigger] s[i]) is Some && (#[trigger] s[j]) is Some
            ==> s[i]->0.name@ != s[j]->0.name@ && !text_lt(s[j]->0.name@, s[i]->0.name@),
    ensures
        forall|a: int, b: int| 0 <= a < b < present(s).len()
            ==> (#[trigger] present(s)[a]).name@ != (#[trigger] present(s)[b]).name@
                && !text_lt(present(s)[b].name@, present(s)[a].name@),
    decreases s.len(),
{
    if s.len() > 0 {
        let d = s.drop_last();
        assert forall|i: int, j: int| 0 <= i < j < d.len() && (#[trigger] d[i]) is Some && (#[trigger] d[j]) is Some
            implies d[i]->0.name@ != d[j]->0.name@ && !text_lt(d[j]->0.name@, d[i]->0.name@) by {
            assert(d[i] == s[i] && d[j] == s[j]);
        }
        lemma_present_ordered(d);
        lemma_present(d);
        let rest = present(d);
        if let Some(x) = s.last() {
            assert forall|a: int, b: int| 0 <= a < b < present(s).len()
                implies (#[trigger] present(s)[a]).name@ != (#[trigger] present(s)[b]).name@
                    && !text_lt(present(s)[b].name@, present(s)[a].name@) by {
                assert(present(s)[a] == rest[a]);
                if b < rest.len() {
                    assert(present(s)[b] == rest[b]);
                } else {
                    assert(present(s)[b] == x);
                    assert(d.contains(Some(rest[a])));
                    let i = choose|i: int| 0 <= i < d.len() && d[i] == Some(rest[a]);
                    assert(s[i] == Some(rest[a]));
                    assert(s[s.len() - 1] == Some(x));
                }
            }
        }
    }
}

/// The first segment of a name holds no dot, and is the name itself where the
/// name holds none.
proof fn lemma_top_category(name: Seq<char>)
    ensures
        !top_category(name).contains('.'),
        !name.contains('.') ==> top_category(name) == name,
{
    crate::text::lemma_char_from(name, '.', 0);
    if let Some(i) = crate::text::char_from(name, '.', 0) {
        assert(name[i] == '.');
        if top_category(name).contains('.') {
            let j = choose|j: int| 0 <= j < top_category(name).len() && top_category(name)[j] == '.';
            assert(name[j] == '.');
        }
    } else {
        if top_category(name).contains('.') {
            let j = choose|j: int| 0 <= j < top_category(name).len() && top_category(name)[j] == '.';
            assert(name[j] == '.');
        }
    }
}

/// The children of the empty prefix, in a store built from a list, are the
/// options whose name holds no dot, each once, in name order.
pub proof fn law_root_children(opts: Seq<NixOption>)
    ensures
        ({
            let entries = options_from(opts);
            let r = children_under(entries, entry_keys(categories_from(opts)), Seq::empty());
            &&& forall|o: NixOption| #[trigger] r.contains(o) <==> exists|m: int|
                0 <= m < entries.len() && (#[trigger] entries[m]).1 == o && !entries[m].0.contains('.')
            &&& forall|a: int, b: int| 0 <= a < b < r.len()
                ==> (#[trigger] r[a]).name@ != (#[trigger] r[b]).name@ && !text_lt(r[b].name@, r[a].name@)
        }),
{
    let entries = options_from(opts);
    let keys = entry_keys(entries);
    let cats = entry_keys(categories_from(opts));
    let names = sort_names(cats);
    let looked = names.map_values(|c: Seq<char>| seq_lookup(entries, c));
    let r = children_under(entries, cats, Seq::empty());
    assert(r == present(looked));
    lemma_from_options_wf(opts);
    law_category_names(opts);
    law_store_order(opts);
    lemma_first_met(opts.map_values(|o: NixOption| o.name@));
    lemma_present(looked);
    assert forall|o: NixOption| #[trigger] r.contains(o) <==> exists|m: int|
        0 <= m < entries.len() && (#[trigger] entries[m]).1 == o && !entries[m].0.contains('.') by {
        if r.contains(o) {
            let t = choose|t: int| 0 <= t < r.len() && r[t] == o;
            assert(looked.contains(Some(r[t])));
            let j = choose|j: int| 0 <= j < looked.len() && looked[j] == Some(o);
            let c = names[j];
            assert(names.contains(c));
            let i = choose|i: int| 0 <= i < opts.len() && top_category(#[trigger] opts[i].name@) == c;
            lemma_top_category(opts[i].name@);
            crate::string_map::lemma_seq_lookup(entries, c);
            let p = crate::string_map::position_from(keys, c, 0).unwrap();
            assert(entries[p].1 == o && entries[p].0 == c);
        }
        if exists|m: int| 0 <= m < entries.len() && (#[trigger] entries[m]).1 == o && !entries[m].0.contains('.') {
            let m = choose|m: int| 0 <= m < entries.len() && (#[trigger] entries[m]).1 == o && !entries[m].0.contains('.');
            let n = entries[m].0;
            assert(keys[m] == n);
            assert(keys.contains(n));
            let onames = opts.map_values(|o: NixOption| o.name@);
            assert(onames.contains(n));
            let i = choose|i: int| 0 <= i < onames.len() && #[trigger] onames[i] == n;
            assert(opts[i].name@ == n);
            lemma_top_category(n);
            assert(top_category(opts[i].name@) == n);
            assert(names.contains(n));
            let j = choose|j: int| 0 <= j < names.len() && names[j] == n;
            crate::string_map::lemma_seq_lookup(entries, n);
            assert(looked[j] == Some(o));
            lemma_present_keeps(looked, o);
        }
    }
    assert forall|i: int, j: int| 0 <= i < j < looked.len() && (#[trigger] looked[i]) is Some && (#[trigger] looked[j]) is Some
        implies looked[i]->0.name@ != looked[j]->0.name@ && !text_lt(looked[j]->0.name@, looked[i]->0.name@) by {
        crate::string_map::lemma_seq_lookup(entries, names[i]);
        crate::string_map::lemma_seq_lookup(entries, names[j]);
        let pi = crate::string_map::position_from(keys, names[i], 0).unwrap();
        let pj = crate::string_map::position_from(keys, names[j], 0).unwrap();
        assert(entries[pi].1.name@ == entries[pi].0);
        assert(entries[pj].1.name@ == entries[pj].0);
        assert(names[i] != names[j] && !text_lt(names[j], names[i]));
    }
    lemma_present_ordered(looked);
}

/// A store built from a list holds one option per distinct name given, and
/// is empty exactly when the list is.
pub proof fn law_store_size(opts: Seq<NixOption>)
    ensures
        options_from(opts).len() == first_met(opts.map_values(|o: NixOption| o.name@)).len(),
        options_from(opts).len() == 0 <==> opts.len() == 0,
{
    let names = opts.map_values(|o: NixOption| o.name@);
    law_store_order(opts);
    lemma_first_met(names);
    assert(entry_keys(options_from(opts)).len() == options_from(opts).len());
    if opts.len() > 0 {
        assert(names.contains(names[0]));
        assert(first_met(names).contains(names[0]));
    }
}

/// The lowercased name of `o` holds the lowercased query `q`.
pub open spec fn name_hit(o: NixOption, q: Seq<char>) -> bool {
    contains_text(lowercase(o.name@), q)
}

/// The lowercased description of `o` holds the lowercased query `q`.
pub open spec fn description_hit(o: NixOption, q: Seq<char>) -> bool {
    contains_text(lowercase(o.description@), q)
}

/// A search finds exactly the options whose name or description holds the
/// query, case aside, and ranks them: every option whose name holds the query
/// comes before every option found only through its description; among
/// options with the same kind of name match, one whose description holds the
/// query comes first; and options that match alike come in name order.
pub proof fn law_search_name_hits_first(store: SchemaStore, query: Seq<char>)
    requires
        store.wf(),
    ensures
        ({
            let q = lowercase(query);
            let r = search_results(store.entries(), query);
            &&& forall|o: NixOption| #[trigger] r.contains(o) <==> exists|m: int|
                0 <= m < store.entries().len() && (#[trigger] store.entries()[m]).1 == o
                    && (name_hit(o, q) || description_hit(o, q))
            &&& forall|i: int, j: int| 0 <= i < j < r.len() ==> {
                &&& name_hit(#[trigger] r[j], q) ==> name_hit(r[i], q)
                &&& (name_hit(r[i], q) == name_hit(r[j], q) && description_hit(#[trigger] r[i], q) == description_hit(r[j], q)
                    ==> !text_lt(r[j].name@, r[i].name@))
                &&& (name_hit(r[i], q) == name_hit(r[j], q) && description_hit(r[j], q) ==> description_hit(r[i], q))
            }
        }),
{
    let entries = store.entries();
    let q = lowercase(query);
    let n = entries.len() as int;
    let found = hits(entries, q, n);
    lemma_hits(entries, q, n);
    law_rank_orders(found);
    law_search_finds_each_once(store, query);
    let ranked = rank_sort(found);
    let r = search_results(entries, query);
    assert forall|t: int| 0 <= t < ranked.len() implies #[trigger] ranked[t].0 == query_score(ranked[t].1, q) && ranked[t].0 > 0 by {
        vstd::seq_lib::to_multiset_contains(ranked, ranked[t]);
        vstd::seq_lib::to_multiset_contains(found, ranked[t]);
        assert(ranked.contains(ranked[t]));
        let u = choose|u: int| 0 <= u < found.len() && found[u] == ranked[t];
        assert(hit_among(found[u], entries, q, n));
        let m = choose|m: int| 0 <= m < n && #[trigger] is_hit_of(found[u], entries, q, m);
    }
    assert forall|o: NixOption| #[trigger] r.contains(o) <==> exists|m: int|
        0 <= m < entries.len() && (#[trigger] entries[m]).1 == o && (name_hit(o, q) || description_hit(o, q)) by {
        if r.contains(o) {
            let m = choose|m: int| 0 <= m < entries.len() && (#[trigger] entries[m]).1 == o && query_score(o, lowercase(query)) > 0;
        }
        if exists|m: int| 0 <= m < entries.len() && (#[trigger] entries[m]).1 == o && (name_hit(o, q) || description_hit(o, q)) {
            let m = choose|m: int| 0 <= m < entries.len() && (#[trigger] entries[m]).1 == o && (name_hit(o, q) || description_hit(o, q));
            assert(query_score(o, q) > 0);
        }
    }
    assert forall|i: int, j: int| 0 <= i < j < r.len() implies {
        &&& name_hit(#[trigger] r[j], q) ==> name_hit(r[i], q)
        &&& (name_hit(r[i], q) == name_hit(r[j], q) && description_hit(#[trigger] r[i], q) == description_hit(r[j], q)
            ==> !text_lt(r[j].name@, r[i].name@))
        &&& (name_hit(r[i], q) == name_hit(r[j], q) && description_hit(r[j], q) ==> description_hit(r[i], q))
    } by {
        assert(r[i] == ranked[i].1 && r[j] == ranked[j].1);
        assert(ranked[i].0 == query_score(ranked[i].1, q) && ranked[i].0 > 0);
        assert(ranked[j].0 == query_score(ranked[j].1, q) && ranked[j].0 > 0);
        assert(!ranks_before(ranked[j], ranked[i]));
    }
}

} // verus!
