use vstd::prelude::*;

verus! {

// ---------------------------------------------------------------------------
// Building and taking apart strings
// ---------------------------------------------------------------------------

/// Appends one character to a string (std's `String::push`).
#[verifier::external_body]
pub(crate) fn push_char(s: &mut String, c: char)
    ensures
        final(s)@ == old(s)@.push(c),
{
    s.push(c);
}

/// The characters of `s`, in order.
pub fn chars_of(s: &str) -> (r: Vec<char>)
    ensures
        r@ == s@,
{
    let mut v: Vec<char> = Vec::new();
    for c in it: s.chars()
        invariant
            v@ == it.seq().take(it.index() as int),
    {
        v.push(c);
    }
    v
}

/// Appends the characters `cs[from..to]` to `s`.
pub fn push_chars(s: &mut String, cs: &Vec<char>, from: usize, to: usize)
    requires
        from <= to <= cs@.len(),
    ensures
        final(s)@ == old(s)@ + cs@.subrange(from as int, to as int),
{
    let mut i = from;
    while i < to
        invariant
            from <= i <= to <= cs@.len(),
            s@ == old(s)@ + cs@.subrange(from as int, i as int),
        decreases to - i,
    {
        push_char(s, cs[i]);
        assert(cs@.subrange(from as int, i + 1) == cs@.subrange(from as int, i as int).push(cs@[i as int]));
        i += 1;
    }
}

/// A string holding the characters `cs[from..to]`.
pub fn string_of(cs: &Vec<char>, from: usize, to: usize) -> (r: String)
    requires
        from <= to <= cs@.len(),
    ensures
        r@ == cs@.subrange(from as int, to as int),
{
    let mut s = String::new();
    push_chars(&mut s, cs, from, to);
    s
}

/// A fresh copy of a string slice.
pub fn owned(s: &str) -> (r: String)
    ensures
        r@ == s@,
{
    s.to_owned()
}

/// `a` followed by `b`.
pub fn concat(a: &str, b: &str) -> (r: String)
    ensures
        r@ == a@ + b@,
{
    let mut s = a.to_owned();
    s.append(b);
    s
}

/// Whether two string slices hold the same characters.
pub fn same_text(a: &str, b: &str) -> (r: bool)
    ensures
        r == (a@ == b@),
{
    let x = a.to_owned();
    let y = b.to_owned();
    x == y
}

// ---------------------------------------------------------------------------
// Searching
// ---------------------------------------------------------------------------

/// `p` occurs in `s` starting at index `i`.
pub open spec fn occurs_at(s: Seq<char>, p: Seq<char>, i: int) -> bool {
    0 <= i && i + p.len() <= s.len() && s.subrange(i, i + p.len()) == p
}

/// The first index at or after `k` where `p` occurs in `s`.
pub open spec fn find_from(s: Seq<char>, p: Seq<char>, k: int) -> Option<int>
    decreases s.len() + 1 - k,
{
    if k < 0 || k + p.len() > s.len() {
        None
    } else if occurs_at(s, p, k) {
        Some(k)
    } else {
        find_from(s, p, k + 1)
    }
}

/// The first index where `p` occurs in `s` (std's `str::find`, counted in characters).
pub open spec fn find_first(s: Seq<char>, p: Seq<char>) -> Option<int> {
    find_from(s, p, 0)
}

/// `p` occurs somewhere in `s`.
pub open spec fn contains_text(s: Seq<char>, p: Seq<char>) -> bool {
    find_first(s, p) is Some
}

/// What `find_from` returns is an occurrence, and none comes before it.
pub proof fn lemma_find_from(s: Seq<char>, p: Seq<char>, k: int)
    requires
        0 <= k,
    ensures
        match find_from(s, p, k) {
            Some(i) => k <= i && occurs_at(s, p, i) && forall|j: int| k <= j < i ==> !occurs_at(s, p, j),
            None => forall|j: int| k <= j ==> !occurs_at(s, p, j),
        },
    decreases s.len() + 1 - k,
{
    if k + p.len() > s.len() {
    } else if occurs_at(s, p, k) {
    } else {
        lemma_find_from(s, p, k + 1);
    }
}

/// `find_first` returns `q` when `p` occurs at `q` and nowhere before.
pub proof fn lemma_find_first_is(s: Seq<char>, p: Seq<char>, q: int)
    requires
        occurs_at(s, p, q),
        forall|k: int| 0 <= k < q ==> !occurs_at(s, p, k),
    ensures
        find_first(s, p) == Some(q),
{
    lemma_find_from(s, p, 0);
}

/// `find_first` returns nothing when `p` occurs nowhere.
pub proof fn lemma_find_first_none(s: Seq<char>, p: Seq<char>)
    requires
        forall|k: int| 0 <= k ==> !occurs_at(s, p, k),
    ensures
        find_first(s, p) is None,
{
    lemma_find_from(s, p, 0);
}

/// An occurrence inside the left part of a concatenation.
pub proof fn lemma_occurs_left(x: Seq<char>, y: Seq<char>, p: Seq<char>, k: int)
    requires
        0 <= k,
        k + p.len() <= x.len(),
    ensures
        occurs_at(x + y, p, k) == occurs_at(x, p, k),
{
    assert((x + y).subrange(k, k + p.len()) =~= x.subrange(k, k + p.len()));
}

/// An occurrence inside the right part of a concatenation.
pub proof fn lemma_occurs_right(x: Seq<char>, y: Seq<char>, p: Seq<char>, k: int)
    requires
        0 <= k,
    ensures
        occurs_at(x + y, p, x.len() + k) == occurs_at(y, p, k),
{
    if k + p.len() <= y.len() {
        assert((x + y).subrange(x.len() + k, x.len() + k + p.len()) =~= y.subrange(k, k + p.len()));
    }
}

/// Where `p` does not occur in `x` and cannot straddle into `y` (whose first
/// character `c` occurs in `p` at most at its start), the first occurrence of `p`
/// in `x + y` is the first one in `y`.
pub proof fn lemma_find_after(x: Seq<char>, y: Seq<char>, p: Seq<char>, c: char)
    requires
        find_first(x, p) is None,
        p.len() > 0,
        y.len() > 0,
        y[0] == c,
        forall|d: int| 1 <= d < p.len() ==> p[d] != c,
    ensures
        find_first(x + y, p) == match find_first(y, p) {
            Some(q) => Some(x.len() + q),
            None => None::<int>,
        },
{
    lemma_find_from(x, p, 0);
    lemma_find_from(y, p, 0);
    let s = x + y;
    assert forall|k: int| 0 <= k < x.len() implies !occurs_at(s, p, k) by {
        if k + p.len() <= x.len() {
            lemma_occurs_left(x, y, p, k);
        } else if occurs_at(s, p, k) {
            let d = x.len() - k;
            assert(s.subrange(k, k + p.len())[d] == s[x.len() as int]);
            assert(p[d] == c);
        }
    }
    match find_first(y, p) {
        Some(q) => {
            lemma_occurs_right(x, y, p, q);
            assert forall|k: int| 0 <= k < x.len() + q implies !occurs_at(s, p, k) by {
                if k >= x.len() {
                    lemma_occurs_right(x, y, p, k - x.len());
                }
            }
            lemma_find_first_is(s, p, x.len() + q);
        },
        None => {
            assert forall|k: int| 0 <= k implies !occurs_at(s, p, k) by {
                if k >= x.len() {
                    lemma_occurs_right(x, y, p, k - x.len());
                }
            }
            lemma_find_first_none(s, p);
        },
    }
}

/// An occurrence of `p` found in `b` is still the first one in `b + r`.
pub proof fn lemma_find_in_front(b: Seq<char>, r: Seq<char>, p: Seq<char>)
    requires
        find_first(b, p) is Some,
    ensures
        find_first(b + r, p) == find_first(b, p),
{
    lemma_find_from(b, p, 0);
    let q = find_first(b, p).unwrap();
    lemma_occurs_left(b, r, p, q);
    assert forall|k: int| 0 <= k < q implies !occurs_at(b + r, p, k) by {
        lemma_occurs_left(b, r, p, k);
    }
    lemma_find_first_is(b + r, p, q);
}

/// `p` does not occur in a text that lacks the first character of `p`.
pub proof fn lemma_find_without_char(s: Seq<char>, p: Seq<char>)
    requires
        p.len() > 0,
        forall|k: int| 0 <= k < s.len() ==> s[k] != p[0],
    ensures
        find_first(s, p) is None,
{
    assert forall|k: int| 0 <= k implies !occurs_at(s, p, k) by {
        if occurs_at(s, p, k) {
            assert(s.subrange(k, k + p.len())[0] == s[k]);
        }
    }
    lemma_find_first_none(s, p);
}

/// A joined sequence of pieces starts with its first piece.
pub proof fn lemma_join_starts(parts: Seq<Seq<char>>, sep: Seq<char>)
    requires
        parts.len() > 0,
    ensures
        starts_with(join(parts, sep), parts[0]),
    decreases parts.len(),
{
    if parts.len() == 1 {
        assert(join(parts, sep).take(parts[0].len() as int) =~= parts[0]);
    } else {
        lemma_join_starts(parts.drop_last(), sep);
        let j = join(parts.drop_last(), sep);
        assert(join(parts, sep) == j + sep + parts.last());
        assert((j + sep + parts.last()).take(parts[0].len() as int) =~= j.take(parts[0].len() as int));
    }
}

/// Whether `p` occurs in `s` at index `i`.
pub fn matches_at(s: &Vec<char>, p: &Vec<char>, i: usize) -> (r: bool)
    ensures
        r == occurs_at(s@, p@, i as int),
{
    if i > s.len() || p.len() > s.len() - i {
        return false;
    }
    let mut j: usize = 0;
    while j < p.len()
        invariant
            i + p.len() <= s.len(),
            j <= p@.len(),
            forall|t: int| 0 <= t < j ==> s@[i + t] == p@[t],
        decreases p@.len() - j,
    {
        if s[i + j] != p[j] {
            assert(s@.subrange(i as int, i + p@.len())[j as int] != p@[j as int]);
            return false;
        }
        j += 1;
    }
    assert(s@.subrange(i as int, i + p@.len()) =~= p@);
    true
}

/// The first index at or after `from` where `p` occurs in `s`.
pub fn find_chars_from(s: &Vec<char>, p: &Vec<char>, from: usize) -> (r: Option<usize>)
    ensures
        r is Some <==> find_from(s@, p@, from as int) is Some,
        r matches Some(i) ==> find_from(s@, p@, from as int) == Some(i as int),
{
    if p.len() > s.len() || from > s.len() - p.len() {
        return None;
    }
    let last = s.len() - p.len();
    let mut k = from;
    while k <= last
        invariant
            from <= k,
            last == s@.len() - p@.len(),
            find_from(s@, p@, from as int) == find_from(s@, p@, k as int),
        decreases last + 1 - k,
    {
        if matches_at(s, p, k) {
            return Some(k);
        }
        if k == last {
            assert(find_from(s@, p@, k + 1) is None);
            return None;
        }
        k += 1;
    }
    None
}

/// The first index where `p` occurs in `s`.
pub fn find_chars(s: &Vec<char>, p: &Vec<char>) -> (r: Option<usize>)
    ensures
        r is Some <==> find_first(s@, p@) is Some,
        r matches Some(i) ==> find_first(s@, p@) == Some(i as int),
{
    find_chars_from(s, p, 0)
}

/// The last index before `k` that holds `c`.
pub open spec fn last_before(s: Seq<char>, c: char, k: int) -> Option<int>
    decreases k,
{
    if k <= 0 {
        None
    } else if s[k - 1] == c {
        Some(k - 1)
    } else {
        last_before(s, c, k - 1)
    }
}

/// The last index of `c` in `s` (std's `str::rfind` on a character, counted in characters).
pub open spec fn find_last(s: Seq<char>, c: char) -> Option<int> {
    last_before(s, c, s.len() as int)
}

/// What `last_before` returns holds `c`, and nothing after it before `k` does.
pub proof fn lemma_last_before(s: Seq<char>, c: char, k: int)
    requires
        k <= s.len(),
    ensures
        match last_before(s, c, k) {
            Some(i) => 0 <= i < k && s[i] == c && forall|j: int| i < j < k ==> s[j] != c,
            None => forall|j: int| 0 <= j < k ==> s[j] != c,
        },
    decreases k,
{
    if k > 0 && s[k - 1] != c {
        lemma_last_before(s, c, k - 1);
    }
}

/// The last index of `c` in `s`.
pub fn find_last_char(s: &Vec<char>, c: char) -> (r: Option<usize>)
    ensures
        r is Some <==> find_last(s@, c) is Some,
        r matches Some(i) ==> find_last(s@, c) == Some(i as int),
{
    let mut k = s.len();
    while k > 0
        invariant
            k <= s@.len(),
            find_last(s@, c) == last_before(s@, c, k as int),
        decreases k,
    {
        if s[k - 1] == c {
            return Some(k - 1);
        }
        k -= 1;
    }
    None
}

/// The first index at or after `k` that holds `c`.
pub open spec fn char_from(s: Seq<char>, c: char, k: int) -> Option<int>
    decreases s.len() - k,
{
    if k < 0 || k >= s.len() {
        None
    } else if s[k] == c {
        Some(k)
    } else {
        char_from(s, c, k + 1)
    }
}

/// What `char_from` returns holds `c`, and nothing from `k` before it does.
pub proof fn lemma_char_from(s: Seq<char>, c: char, k: int)
    requires
        0 <= k,
    ensures
        match char_from(s, c, k) {
            Some(i) => k <= i < s.len() && s[i] == c && forall|j: int| k <= j < i ==> s[j] != c,
            None => forall|j: int| k <= j < s.len() ==> s[j] != c,
        },
    decreases s.len() - k,
{
    if k < s.len() && s[k] != c {
        lemma_char_from(s, c, k + 1);
    }
}

/// The first index at or after `from` that holds `c`.
pub fn find_char_from(s: &Vec<char>, c: char, from: usize) -> (r: Option<usize>)
    ensures
        r is Some <==> char_from(s@, c, from as int) is Some,
        r matches Some(i) ==> char_from(s@, c, from as int) == Some(i as int),
{
    let mut k = from;
    while k < s.len()
        invariant
            from <= k,
            char_from(s@, c, from as int) == char_from(s@, c, k as int),
        decreases s@.len() - k,
    {
        if s[k] == c {
            return Some(k);
        }
        k += 1;
    }
    None
}

/// Whether `c` occurs in `s`.
pub fn has_char(s: &str, c: char) -> (r: bool)
    ensures
        r == s@.contains(c),
{
    let cs = chars_of(s);
    proof { lemma_char_from(cs@, c, 0); }
    let r = find_char_from(&cs, c, 0).is_some();
    proof {
        if s@.contains(c) {
            let j = choose|j: int| 0 <= j < s@.len() && s@[j] == c;
            assert(cs@[j] == c);
        }
    }
    r
}

/// `p` is a prefix of `s`.
pub open spec fn starts_with(s: Seq<char>, p: Seq<char>) -> bool {
    p.len() <= s.len() && s.take(p.len() as int) == p
}

/// Whether `s` starts with `p`.
pub fn starts_with_text(s: &str, p: &str) -> (r: bool)
    ensures
        r == starts_with(s@, p@),
{
    let sc = chars_of(s);
    let pc = chars_of(p);
    let r = matches_at(&sc, &pc, 0);
    proof {
        if starts_with(s@, p@) {
            assert(s@.subrange(0, p@.len() as int) =~= s@.take(p@.len() as int));
        }
        if r {
            assert(s@.subrange(0, p@.len() as int) =~= s@.take(p@.len() as int));
        }
    }
    r
}

/// Whether `p` occurs in `s`.
pub fn contains_str(s: &str, p: &str) -> (r: bool)
    ensures
        r == contains_text(s@, p@),
{
    let sc = chars_of(s);
    let pc = chars_of(p);
    find_chars(&sc, &pc).is_some()
}


// ---------------------------------------------------------------------------
// Splitting and joining
// ---------------------------------------------------------------------------

/// The pieces of `s[k..]` between occurrences of `c` (std's `str::split` on a character).
pub open spec fn split_from(s: Seq<char>, c: char, k: int) -> Seq<Seq<char>>
    decreases s.len() - k,
{
    if k < 0 || k > s.len() {
        seq![]
    } else {
        match char_from(s, c, k) {
            Some(i) => if k <= i < s.len() {
                seq![s.subrange(k, i)] + split_from(s, c, i + 1)
            } else {
                seq![]
            },
            None => seq![s.subrange(k, s.len() as int)],
        }
    }
}

/// The pieces of `s` between occurrences of `c`.
pub open spec fn split_char(s: Seq<char>, c: char) -> Seq<Seq<char>> {
    split_from(s, c, 0)
}

/// The views of a sequence of strings.
pub open spec fn views(v: Seq<String>) -> Seq<Seq<char>> {
    v.map_values(|x: String| x@)
}

/// The pieces of `s` between occurrences of `c`.
pub fn split_text(s: &str, c: char) -> (r: Vec<String>)
    ensures
        views(r@) == split_char(s@, c),
{
    let cs = chars_of(s);
    let mut parts: Vec<String> = Vec::new();
    let mut start: usize = 0;
    loop
        invariant
            cs@ == s@,
            start <= cs@.len(),
            views(parts@) + split_from(cs@, c, start as int) == split_char(s@, c),
        decreases cs@.len() - start,
    {
        proof { lemma_char_from(cs@, c, start as int); }
        match find_char_from(&cs, c, start) {
            Some(i) => {
                assert(start <= i < cs@.len());
                assert(i < cs.len());
                let piece = string_of(&cs, start, i);
                let ghost before = views(parts@);
                parts.push(piece);
                assert(views(parts@) == before.push(piece@));
                assert(split_from(cs@, c, start as int) == seq![cs@.subrange(start as int, i as int)] + split_from(cs@, c, i + 1));
                assert(views(parts@) + split_from(cs@, c, i + 1) =~= before + split_from(cs@, c, start as int));
                start = i + 1;
            },
            None => {
                let piece = string_of(&cs, start, cs.len());
                let ghost before = views(parts@);
                parts.push(piece);
                assert(views(parts@) == before.push(piece@));
                assert(views(parts@) =~= before + split_from(cs@, c, start as int));
                return parts;
            },
        }
    }
}

/// The pieces of `parts` with `sep` between each two (std's `join`).
pub open spec fn join(parts: Seq<Seq<char>>, sep: Seq<char>) -> Seq<char>
    decreases parts.len(),
{
    if parts.len() == 0 {
        seq![]
    } else if parts.len() == 1 {
        parts[0]
    } else {
        join(parts.drop_last(), sep) + sep + parts.last()
    }
}

/// Joining a piece in front of a nonempty list puts it and a separator before
/// the rest joined.
pub proof fn lemma_join_front(x: Seq<char>, rest: Seq<Seq<char>>, sep: Seq<char>)
    requires
        rest.len() > 0,
    ensures
        join(seq![x] + rest, sep) == x + sep + join(rest, sep),
    decreases rest.len(),
{
    let all = seq![x] + rest;
    assert(all.len() >= 2);
    assert(all.last() == rest.last());
    assert(join(all, sep) == join(all.drop_last(), sep) + sep + all.last());
    if rest.len() == 1 {
        assert(all.drop_last() =~= seq![x]);
        assert(join(seq![x], sep) == x);
        assert(join(rest, sep) == rest[0]);
    } else {
        lemma_join_front(x, rest.drop_last(), sep);
        assert(all.drop_last() =~= seq![x] + rest.drop_last());
        assert(join(rest, sep) == join(rest.drop_last(), sep) + sep + rest.last());
        assert(x + sep + join(rest.drop_last(), sep) + sep + rest.last() =~= x + sep + (join(rest.drop_last(), sep) + sep + rest.last()));
    }
}

/// Splitting `s[k..]` at `c` gives at least one piece, and joining the pieces
/// with `c` gives `s[k..]` back.
pub proof fn lemma_split_join(s: Seq<char>, c: char, k: int)
    requires
        0 <= k <= s.len(),
    ensures
        split_from(s, c, k).len() > 0,
        join(split_from(s, c, k), seq![c]) == s.subrange(k, s.len() as int),
    decreases s.len() - k,
{
    lemma_char_from(s, c, k);
    match char_from(s, c, k) {
        Some(i) => {
            lemma_split_join(s, c, i + 1);
            let rest = split_from(s, c, i + 1);
            lemma_join_front(s.subrange(k, i), rest, seq![c]);
            assert(s.subrange(k, i) + seq![c] + s.subrange(i + 1, s.len() as int) =~= s.subrange(k, s.len() as int));
        },
        None => {},
    }
}

/// The strings of `parts` with `sep` between each two.
pub fn join_texts(parts: &Vec<String>, sep: &str) -> (r: String)
    ensures
        r@ == join(views(parts@), sep@),
{
    let mut r = String::new();
    let mut i: usize = 0;
    while i < parts.len()
        invariant
            i <= parts@.len(),
            r@ == join(views(parts@).take(i as int), sep@),
        decreases parts@.len() - i,
    {
        let ghost prev = views(parts@).take(i as int);
        if i > 0 {
            r.append(sep);
        }
        r.append(parts[i].as_str());
        assert(views(parts@).take(i + 1).drop_last() =~= prev);
        i += 1;
    }
    assert(views(parts@).take(parts@.len() as int) =~= views(parts@));
    r
}

// ---------------------------------------------------------------------------
// White space
// ---------------------------------------------------------------------------

/// The characters with Unicode's White_Space property, which std's
/// `char::is_whitespace` tests for.
pub open spec fn is_white_space(c: char) -> bool {
    let n = c as u32;
    ||| 0x9 <= n <= 0xD
    ||| n == 0x20
    ||| n == 0x85
    ||| n == 0xA0
    ||| n == 0x1680
    ||| 0x2000 <= n <= 0x200A
    ||| n == 0x2028
    ||| n == 0x2029
    ||| n == 0x202F
    ||| n == 0x205F
    ||| n == 0x3000
}

/// Whether `c` is white space.
pub fn white_space(c: char) -> (r: bool)
    ensures
        r == is_white_space(c),
{
    let n = c as u32;
    (0x9 <= n && n <= 0xD) || n == 0x20 || n == 0x85 || n == 0xA0 || n == 0x1680
        || (0x2000 <= n && n <= 0x200A) || n == 0x2028 || n == 0x2029 || n == 0x202F
        || n == 0x205F || n == 0x3000
}

/// Every character of `s` is white space (so std's `str::trim` leaves nothing).
pub open spec fn all_white_space(s: Seq<char>) -> bool {
    forall|i: int| 0 <= i < s.len() ==> is_white_space(#[trigger] s[i])
}

/// Whether `s` is empty once white space is trimmed from both ends.
pub fn is_blank(s: &str) -> (r: bool)
    ensures
        r == all_white_space(s@),
{
    let cs = chars_of(s);
    let mut i: usize = 0;
    while i < cs.len()
        invariant
            cs@ == s@,
            i <= cs@.len(),
            forall|j: int| 0 <= j < i ==> is_white_space(#[trigger] cs@[j]),
        decreases cs@.len() - i,
    {
        if !white_space(cs[i]) {
            return false;
        }
        i += 1;
    }
    true
}

/// The number of white-space characters at the start of `s`.
pub open spec fn lead_ws(s: Seq<char>) -> nat
    decreases s.len(),
{
    if s.len() > 0 && is_white_space(s[0]) {
        1 + lead_ws(s.drop_first())
    } else {
        0
    }
}

/// The number of white-space characters at the end of `s`.
pub open spec fn trail_ws(s: Seq<char>) -> nat
    decreases s.len(),
{
    if s.len() > 0 && is_white_space(s.last()) {
        1 + trail_ws(s.drop_last())
    } else {
        0
    }
}

/// `s` without the white space at either end (std's `str::trim`).
pub open spec fn trimmed(s: Seq<char>) -> Seq<char> {
    if lead_ws(s) >= s.len() {
        Seq::empty()
    } else {
        s.subrange(lead_ws(s) as int, s.len() - trail_ws(s))
    }
}

proof fn lemma_lead_ws(s: Seq<char>, k: int)
    requires
        0 <= k <= s.len(),
        forall|j: int| 0 <= j < k ==> is_white_space(#[trigger] s[j]),
    ensures
        lead_ws(s) == k + lead_ws(s.skip(k)),
    decreases k,
{
    if k > 0 {
        assert(s.skip(1).skip(k - 1) =~= s.skip(k));
        lemma_lead_ws(s.drop_first(), k - 1);
        assert(s.drop_first() =~= s.skip(1));
    } else {
        assert(s.skip(0) =~= s);
    }
}

proof fn lemma_trail_ws(s: Seq<char>, k: int)
    requires
        0 <= k <= s.len(),
        forall|j: int| s.len() - k <= j < s.len() ==> is_white_space(#[trigger] s[j]),
    ensures
        trail_ws(s) == k + trail_ws(s.take(s.len() - k)),
    decreases k,
{
    if k > 0 {
        assert(s.drop_last().take(s.len() - k) =~= s.take(s.len() - k));
        lemma_trail_ws(s.drop_last(), k - 1);
    } else {
        assert(s.take(s.len() as int) =~= s);
    }
}

/// `s` without the white space at either end.
pub fn trim_text(s: &str) -> (r: String)
    ensures
        r@ == trimmed(s@),
{
    let cs = chars_of(s);
    let n = cs.len();
    let mut a: usize = 0;
    while a < n && white_space(cs[a])
        invariant
            cs@ == s@,
            n == cs@.len(),
            a <= n,
            forall|j: int| 0 <= j < a ==> is_white_space(#[trigger] cs@[j]),
        decreases n - a,
    {
        a += 1;
    }
    proof {
        lemma_lead_ws(s@, a as int);
        if a < n {
            assert(s@.skip(a as int)[0] == s@[a as int]);
        }
    }
    if a == n {
        proof { assert(lead_ws(s@) >= s@.len()); }
        return String::new();
    }
    let mut b: usize = n;
    while b > a && white_space(cs[b - 1])
        invariant
            cs@ == s@,
            n == cs@.len(),
            a < n,
            !is_white_space(cs@[a as int]),
            a <= b <= n,
            forall|j: int| b <= j < n ==> is_white_space(#[trigger] cs@[j]),
        decreases b - a,
    {
        b -= 1;
    }
    proof {
        lemma_trail_ws(s@, n - b);
        assert(b > a);
        let t = s@.take(b as int);
        assert(t.last() == s@[b - 1]);
    }
    string_of(&cs, a, b)
}

/// The end of the run of non-white-space characters that starts at `k`.
pub open spec fn word_end(s: Seq<char>, k: int) -> int
    decreases s.len() - k,
{
    if k < 0 || k >= s.len() {
        s.len() as int
    } else if is_white_space(s[k]) {
        k
    } else {
        word_end(s, k + 1)
    }
}

/// Where a run ends.
pub proof fn lemma_word_end(s: Seq<char>, k: int)
    requires
        0 <= k <= s.len(),
    ensures
        k <= word_end(s, k) <= s.len(),
        forall|j: int| k <= j < word_end(s, k) ==> !is_white_space(#[trigger] s[j]),
        word_end(s, k) < s.len() ==> is_white_space(s[word_end(s, k)]),
    decreases s.len() - k,
{
    if k < s.len() && !is_white_space(s[k]) {
        lemma_word_end(s, k + 1);
    }
}

/// The maximal runs of non-white-space characters in `s[k..]`
/// (std's `str::split_whitespace`).
pub open spec fn words_from(s: Seq<char>, k: int) -> Seq<Seq<char>>
    decreases s.len() - k,
{
    if k < 0 || k >= s.len() {
        seq![]
    } else if is_white_space(s[k]) {
        words_from(s, k + 1)
    } else {
        let e = word_end(s, k);
        if k < e <= s.len() {
            seq![s.subrange(k, e)] + words_from(s, e)
        } else {
            seq![]
        }
    }
}

/// The maximal runs of non-white-space characters in `s`.
pub open spec fn words(s: Seq<char>) -> Seq<Seq<char>> {
    words_from(s, 0)
}

/// `w` is a word: not empty, and without white space.
pub open spec fn solid(w: Seq<char>) -> bool {
    w.len() > 0 && forall|j: int| 0 <= j < w.len() ==> !is_white_space(#[trigger] w[j])
}

/// No word holds white space, and none is empty.
pub proof fn lemma_words_solid(s: Seq<char>, k: int)
    requires
        0 <= k,
    ensures
        forall|w: int| 0 <= w < words_from(s, k).len() ==> solid(#[trigger] words_from(s, k)[w]),
    decreases s.len() - k,
{
    if k < s.len() {
        if is_white_space(s[k]) {
            lemma_words_solid(s, k + 1);
            assert(words_from(s, k) == words_from(s, k + 1));
        } else {
            lemma_word_end(s, k);
            let e = word_end(s, k);
            if k < e <= s.len() {
                lemma_words_solid(s, e);
                assert(words_from(s, k) == seq![s.subrange(k, e)] + words_from(s, e));
                let ws = words_from(s, k);
                assert forall|w: int| 0 <= w < ws.len() implies solid(#[trigger] ws[w]) by {
                    if w == 0 {
                        assert(ws[0] == s.subrange(k, e));
                        assert forall|j: int| 0 <= j < ws[w].len() implies !is_white_space(#[trigger] ws[w][j]) by {
                            assert(ws[w][j] == s[k + j]);
                        }
                    } else {
                        assert(ws[w] == words_from(s, e)[w - 1]);
                    }
                }
            }
        }
    }
}

/// The words of `s`.
pub fn split_words(s: &str) -> (r: Vec<String>)
    ensures
        views(r@) == words(s@),
{
    let cs = chars_of(s);
    let mut out: Vec<String> = Vec::new();
    let mut k: usize = 0;
    while k < cs.len()
        invariant
            cs@ == s@,
            k <= cs@.len(),
            views(out@) + words_from(cs@, k as int) == words(s@),
        decreases cs@.len() - k,
    {
        if white_space(cs[k]) {
            k += 1;
        } else {
            let mut e = k + 1;
            proof { lemma_word_end(cs@, k + 1); }
            while e < cs.len() && !white_space(cs[e])
                invariant
                    k < e <= cs@.len(),
                    word_end(cs@, e as int) == word_end(cs@, k as int),
                decreases cs@.len() - e,
            {
                e += 1;
            }
            let w = string_of(&cs, k, e);
            let ghost before = views(out@);
            out.push(w);
            assert(views(out@) == before.push(w@));
            assert(views(out@) + words_from(cs@, e as int) =~= before + words_from(cs@, k as int));
            k = e;
        }
    }
    assert(views(out@) =~= views(out@) + words_from(cs@, k as int));
    out
}

// ---------------------------------------------------------------------------
// Case and numbers
// ---------------------------------------------------------------------------

/// What std's `str::to_lowercase` returns for the characters `s`.
pub uninterp spec fn lowercase(s: Seq<char>) -> Seq<char>;

/// The lowercase form of `s` (std's `str::to_lowercase`, Unicode's full lowercase
/// mapping; the mapping itself is not restated here).
#[verifier::external_body]
pub(crate) fn to_lower(s: &str) -> (r: String)
    ensures
        r@ == lowercase(s@),
{
    s.to_lowercase()
}

/// The decimal digit `d`.
pub open spec fn digit(d: int) -> char {
    if d == 0 { '0' } else if d == 1 { '1' } else if d == 2 { '2' } else if d == 3 { '3' }
    else if d == 4 { '4' } else if d == 5 { '5' } else if d == 6 { '6' } else if d == 7 { '7' }
    else if d == 8 { '8' } else { '9' }
}

/// The decimal form of `n`, without leading zeros.
pub open spec fn nat_text(n: nat) -> Seq<char>
    decreases n,
{
    if n < 10 {
        seq![digit(n as int)]
    } else {
        nat_text(n / 10).push(digit((n % 10) as int))
    }
}

/// The decimal form of `n`, with a leading `-` when negative (what std's
/// `Display` for integers writes).
pub open spec fn int_text(n: int) -> Seq<char> {
    if n < 0 {
        seq!['-'] + nat_text((-n) as nat)
    } else {
        nat_text(n as nat)
    }
}

fn digit_char(d: u64) -> (c: char)
    requires
        d < 10,
    ensures
        c == digit(d as int),
{
    if d == 0 { '0' } else if d == 1 { '1' } else if d == 2 { '2' } else if d == 3 { '3' }
    else if d == 4 { '4' } else if d == 5 { '5' } else if d == 6 { '6' } else if d == 7 { '7' }
    else if d == 8 { '8' } else { '9' }
}

fn push_nat(s: &mut String, n: u64)
    ensures
        final(s)@ == old(s)@ + nat_text(n as nat),
    decreases n,
{
    if n >= 10 {
        push_nat(s, n / 10);
        push_char(s, digit_char(n % 10));
        assert(nat_text(n as nat) == nat_text((n / 10) as nat).push(digit((n % 10) as int)));
    } else {
        push_char(s, digit_char(n));
    }
}

/// The decimal form of `n`.
pub fn int_string(n: i64) -> (r: String)
    ensures
        r@ == int_text(n as int),
{
    let mut s = String::new();
    if n < 0 {
        push_char(&mut s, '-');
        let m: u64 = if n == i64::MIN { 9223372036854775808u64 } else { (-n) as u64 };
        push_nat(&mut s, m);
    } else {
        push_nat(&mut s, n as u64);
    }
    s
}

/// The decimal form of `n`.
pub fn count_string(n: usize) -> (r: String)
    ensures
        r@ == nat_text(n as nat),
{
    let mut s = String::new();
    push_nat(&mut s, n as u64);
    s
}

// ---------------------------------------------------------------------------
// Widths
// ---------------------------------------------------------------------------

/// `n` spaces.
pub open spec fn spaces(n: nat) -> Seq<char> {
    Seq::new(n, |i: int| ' ')
}

/// `s` padded on the right with spaces to `width` characters (what `{:<width}`
/// writes).
pub open spec fn pad_right(s: Seq<char>, width: nat) -> Seq<char> {
    if s.len() >= width {
        s
    } else {
        s + spaces((width - s.len()) as nat)
    }
}

/// `s` padded on the right with spaces to `width` characters.
pub fn padded(s: &str, width: usize) -> (r: String)
    ensures
        r@ == pad_right(s@, width as nat),
{
    let mut r = s.to_owned();
    let n = s.unicode_len();
    let mut i = n;
    while i < width
        invariant
            n == s@.len(),
            n <= i <= width || (n > width && i == n),
            r@ == s@ + spaces((i - n) as nat),
        decreases width - i,
    {
        push_char(&mut r, ' ');
        assert(spaces((i + 1 - n) as nat) =~= spaces((i - n) as nat).push(' '));
        i += 1;
    }
    assert(r@ =~= pad_right(s@, width as nat));
    r
}

/// The number of bytes UTF-8 takes for `c` (std's `char::len_utf8`).
pub open spec fn utf8_width(c: char) -> nat {
    let n = c as u32;
    if n < 0x80 { 1 } else if n < 0x800 { 2 } else if n < 0x10000 { 3 } else { 4 }
}

/// The number of bytes UTF-8 takes for `s` (std's `str::len`).
pub open spec fn byte_len(s: Seq<char>) -> nat
    decreases s.len(),
{
    if s.len() == 0 {
        0
    } else {
        byte_len(s.drop_last()) + utf8_width(s.last())
    }
}

/// The UTF-8 length of `c`.
pub fn char_width(c: char) -> (r: usize)
    ensures
        r == utf8_width(c),
{
    let n = c as u32;
    if n < 0x80 { 1 } else if n < 0x800 { 2 } else if n < 0x10000 { 3 } else { 4 }
}

/// The UTF-8 length of `s`, or `None` where it does not fit in a `usize`.
pub fn utf8_len(s: &str) -> (r: Option<usize>)
    ensures
        match r {
            Some(n) => n == byte_len(s@),
            None => byte_len(s@) > usize::MAX,
        },
{
    let cs = chars_of(s);
    let mut total: usize = 0;
    let mut i: usize = 0;
    while i < cs.len()
        invariant
            cs@ == s@,
            i <= cs@.len(),
            total == byte_len(cs@.take(i as int)),
        decreases cs@.len() - i,
    {
        assert(cs@.take(i + 1).drop_last() =~= cs@.take(i as int));
        let w = char_width(cs[i]);
        if total > usize::MAX - w {
            proof { lemma_byte_len_prefix(cs@, i + 1); }
            return None;
        }
        total = total + w;
        i += 1;
    }
    assert(cs@.take(cs@.len() as int) =~= cs@);
    Some(total)
}

/// Two texts together take the bytes of both.
pub proof fn lemma_byte_len_concat(a: Seq<char>, b: Seq<char>)
    ensures
        byte_len(a + b) == byte_len(a) + byte_len(b),
    decreases b.len(),
{
    if b.len() == 0 {
        assert(a + b =~= a);
    } else {
        lemma_byte_len_concat(a, b.drop_last());
        assert((a + b).drop_last() =~= a + b.drop_last());
        assert((a + b).last() == b.last());
    }
}

/// A prefix takes no more bytes than the whole.
pub proof fn lemma_byte_len_prefix(s: Seq<char>, k: int)
    requires
        0 <= k <= s.len(),
    ensures
        byte_len(s.take(k)) <= byte_len(s),
    decreases s.len() - k,
{
    if k < s.len() {
        lemma_byte_len_prefix(s, k + 1);
        assert(s.take(k + 1).drop_last() =~= s.take(k));
    } else {
        assert(s.take(k) =~= s);
    }
}


// ---------------------------------------------------------------------------
// Order
// ---------------------------------------------------------------------------

/// `a` comes before `b` in the order of std's `Ord` for strings: lexicographic
/// by character code (the same as by UTF-8 bytes).
pub open spec fn text_lt(a: Seq<char>, b: Seq<char>) -> bool
    decreases a.len(),
{
    if a.len() == 0 {
        b.len() > 0
    } else if b.len() == 0 {
        false
    } else if a[0] != b[0] {
        (a[0] as u32) < (b[0] as u32)
    } else {
        text_lt(a.drop_first(), b.drop_first())
    }
}

/// Of two different texts one comes first.
pub proof fn lemma_text_lt_total(a: Seq<char>, b: Seq<char>)
    requires
        a != b,
    ensures
        text_lt(a, b) || text_lt(b, a),
    decreases a.len(),
{
    if a.len() > 0 && b.len() > 0 {
        if a[0] == b[0] {
            assert(a =~= seq![a[0]] + a.drop_first());
            assert(b =~= seq![b[0]] + b.drop_first());
            lemma_text_lt_total(a.drop_first(), b.drop_first());
        } else {
            vstd::utf8::char_u32_cast(a[0], a[0] as u32);
            vstd::utf8::char_u32_cast(b[0], b[0] as u32);
        }
    } else if a.len() == 0 && b.len() == 0 {
        assert(a =~= b);
    }
}

/// No text comes before itself, and of two texts at most one comes first.
pub proof fn lemma_text_lt_asym(a: Seq<char>, b: Seq<char>)
    ensures
        !text_lt(a, a),
        text_lt(a, b) ==> !text_lt(b, a),
    decreases a.len(),
{
    if a.len() > 0 {
        lemma_text_lt_asym(a.drop_first(), a.drop_first());
        if b.len() > 0 {
            lemma_text_lt_asym(a.drop_first(), b.drop_first());
        }
    }
}

/// Coming first is transitive.
pub proof fn lemma_text_lt_trans(a: Seq<char>, b: Seq<char>, c: Seq<char>)
    requires
        text_lt(a, b),
        text_lt(b, c),
    ensures
        text_lt(a, c),
    decreases a.len(),
{
    if a.len() > 0 && a[0] == b[0] && b[0] == c[0] {
        lemma_text_lt_trans(a.drop_first(), b.drop_first(), c.drop_first());
    }
}

/// Whether `a` comes before `b`.
pub fn text_less(a: &str, b: &str) -> (r: bool)
    ensures
        r == text_lt(a@, b@),
{
    let x = chars_of(a);
    let y = chars_of(b);
    let mut i: usize = 0;
    assert(x@.skip(0) =~= x@);
    assert(y@.skip(0) =~= y@);
    while i < x.len() && i < y.len()
        invariant
            x@ == a@,
            y@ == b@,
            i <= x@.len(),
            i <= y@.len(),
            text_lt(a@, b@) == text_lt(x@.skip(i as int), y@.skip(i as int)),
        decreases x@.len() - i,
    {
        if x[i] != y[i] {
            return (x[i] as u32) < (y[i] as u32);
        }
        assert(x@.skip(i as int).drop_first() =~= x@.skip(i + 1));
        assert(y@.skip(i as int).drop_first() =~= y@.skip(i + 1));
        i += 1;
    }
    i == x.len() && i < y.len()
}


/// The part of `s` before its first `c` (all of `s` where it has none): the
/// first piece that std's `str::split` yields.
pub open spec fn before_char(s: Seq<char>, c: char) -> Seq<char> {
    match char_from(s, c, 0) {
        Some(i) => s.take(i),
        None => s,
    }
}

/// The part of `s` before its first `c`.
pub fn text_before(s: &str, c: char) -> (r: String)
    ensures
        r@ == before_char(s@, c),
{
    let cs = chars_of(s);
    proof { lemma_char_from(cs@, c, 0); }
    match find_char_from(&cs, c, 0) {
        Some(i) => {
            let r = string_of(&cs, 0, i);
            assert(cs@.subrange(0, i as int) =~= cs@.take(i as int));
            r
        },
        None => {
            let r = string_of(&cs, 0, cs.len());
            assert(cs@.subrange(0, cs@.len() as int) =~= cs@);
            r
        },
    }
}

// ---------------------------------------------------------------------------
// Reading integers
// ---------------------------------------------------------------------------

/// `c` is an ASCII digit.
pub open spec fn is_digit(c: char) -> bool {
    48 <= (c as u32) <= 57
}

/// Every character of `s` is an ASCII digit.
pub open spec fn all_digits(s: Seq<char>) -> bool {
    forall|i: int| 0 <= i < s.len() ==> is_digit(#[trigger] s[i])
}

/// The number that a run of ASCII digits spells in base ten.
pub open spec fn digits_value(s: Seq<char>) -> int
    decreases s.len(),
{
    if s.len() == 0 {
        0
    } else {
        digits_value(s.drop_last()) * 10 + ((s.last() as u32) - 48)
    }
}

/// The integer that `s` spells in std's grammar for a signed integer: an
/// optional `+` or `-`, then one or more ASCII digits.
pub open spec fn spelled_int(s: Seq<char>) -> Option<int> {
    let signed = s.len() > 0 && (s[0] == '-' || s[0] == '+');
    let ds = if signed { s.drop_first() } else { s };
    if ds.len() > 0 && all_digits(ds) {
        Some(if s[0] == '-' { -digits_value(ds) } else { digits_value(ds) })
    } else {
        None
    }
}

/// What std's `str::parse::<i64>` gives for `s`: the integer it spells, where
/// that fits in an `i64`.
pub open spec fn parsed_i64(s: Seq<char>) -> Option<i64> {
    match spelled_int(s) {
        Some(v) => if i64::MIN <= v <= i64::MAX { Some(v as i64) } else { None },
        None => None,
    }
}

/// A run of digits spells no less than any of its prefixes.
proof fn lemma_digits_grow(s: Seq<char>, m: int)
    requires
        all_digits(s),
        0 <= m <= s.len(),
    ensures
        digits_value(s) >= digits_value(s.take(m)),
        digits_value(s) >= 0,
    decreases s.len(),
{
    if s.len() > 0 {
        assert(all_digits(s.drop_last())) by {
            assert forall|i: int| 0 <= i < s.drop_last().len() implies is_digit(#[trigger] s.drop_last()[i]) by {
                assert(s.drop_last()[i] == s[i]);
            }
        }
        assert(is_digit(s[s.len() - 1]));
        if m == s.len() {
            assert(s.take(m) =~= s);
            lemma_digits_grow(s.drop_last(), 0);
        } else {
            lemma_digits_grow(s.drop_last(), m);
            assert(s.drop_last().take(m) =~= s.take(m));
        }
    } else {
        assert(s.take(m) =~= s);
    }
}

/// The `i64` that `s` spells, as std's `str::parse::<i64>` reads it.
pub fn parse_i64(s: &str) -> (r: Option<i64>)
    ensures
        r == parsed_i64(s@),
{
    let cs = chars_of(s);
    let n = cs.len();
    if n == 0 {
        return None;
    }
    let signed = cs[0] == '-' || cs[0] == '+';
    let start: usize = if signed { 1 } else { 0 };
    let ghost ds = if signed { s@.drop_first() } else { s@ };
    assert(ds =~= cs@.subrange(start as int, n as int));
    if start == n {
        return None;
    }
    let mut acc: u64 = 0;
    let mut i = start;
    while i < n
        invariant
            cs@ == s@,
            n == cs@.len(),
            start <= i <= n,
            ds == cs@.subrange(start as int, n as int),
            ds.len() > 0,
            ds == (if s@.len() > 0 && (s@[0] == '-' || s@[0] == '+') { s@.drop_first() } else { s@ }),
            all_digits(ds.take(i - start)),
            acc == digits_value(ds.take(i - start)),
            acc <= 9223372036854775808u64,
        decreases n - i,
    {
        let d = cs[i] as u32;
        assert(ds[i - start] == cs@[i as int]);
        if d < 48 || d > 57 {
            assert(!is_digit(ds[i - start]));
            return None;
        }
        let next: u128 = (acc as u128) * 10 + ((d - 48) as u128);
        assert(ds.take(i - start + 1).drop_last() =~= ds.take(i - start));
        assert(all_digits(ds.take(i - start + 1))) by {
            assert forall|j: int| 0 <= j < ds.take(i - start + 1).len() implies is_digit(#[trigger] ds.take(i - start + 1)[j]) by {
                if j < i - start {
                    assert(ds.take(i - start + 1)[j] == ds.take(i - start)[j]);
                }
            }
        }
        assert(next == digits_value(ds.take(i - start + 1)));
        if next > 9223372036854775808u128 {
            proof {
                if all_digits(ds) {
                    lemma_digits_grow(ds, i - start + 1);
                }
            }
            return None;
        }
        acc = next as u64;
        i += 1;
    }
    assert(ds.take(n - start) =~= ds);
    if cs[0] == '-' {
        if acc == 9223372036854775808u64 {
            Some(i64::MIN)
        } else {
            Some(-(acc as i64))
        }
    } else if acc > 9223372036854775807u64 {
        None
    } else {
        Some(acc as i64)
    }
}

} // verus!
