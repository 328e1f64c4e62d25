use vstd::prelude::*;

use crate::app::{selected, App, AppMode, ConfirmKind, ItemView, ListItem, Screen};
use crate::option::{display_text, hint_text, last_segment, last_segment_of, lemma_shown, shown, NixOption, OptionType, OptionValue, ValueView};
use crate::schema::SchemaStore;
use crate::string_map::{entry_keys, seq_lookup};
use crate::text::{
    byte_len, char_width, chars_of, concat, contains_str, contains_text, count_string, has_char, join, join_texts, nat_text, string_of,
    pad_right, padded, push_char, same_text, split_char, split_text, split_words, starts_with,
    starts_with_text, utf8_len, views, words,
};

verus! {

// ---------------------------------------------------------------------------
// Type labels
// ---------------------------------------------------------------------------

/// How a type is named in the detail panel.
pub open spec fn type_label_text(t: OptionType) -> Seq<char>
    decreases t,
{
    match t {
        OptionType::Bool => "bool"@,
        OptionType::Int { .. } => "int"@,
        OptionType::Float => "float"@,
        OptionType::Str => "string"@,
        OptionType::Path => "path"@,
        OptionType::Package => "package"@,
        OptionType::Enum { values } => "enum ("@ + join(views(values@), " | "@) + ")"@,
        OptionType::List { element } => "list of "@ + type_label_text(*element),
        OptionType::Attrs { element } => "attrs of "@ + type_label_text(*element),
        OptionType::Submodule { .. } => "submodule"@,
        OptionType::Nullable { inner } => "null or "@ + type_label_text(*inner),
        OptionType::Unknown { type_str } => type_str@,
    }
}

/// A type's label names its kind: a list is labelled "list of", an attribute
/// set "attrs of" and a nullable type "null or", each followed by the label
/// of its element, so the three never share a label; the scalar types have
/// labels of their own, none the same as another's.
pub proof fn law_labels_name_kinds(e: OptionType)
    ensures
        ({
            let l = type_label_text(OptionType::List { element: Box::new(e) });
            let a = type_label_text(OptionType::Attrs { element: Box::new(e) });
            let n = type_label_text(OptionType::Nullable { inner: Box::new(e) });
            &&& starts_with(l, "list of "@) && l.skip(8) == type_label_text(e)
            &&& starts_with(a, "attrs of "@) && a.skip(9) == type_label_text(e)
            &&& starts_with(n, "null or "@) && n.skip(8) == type_label_text(e)
            &&& l != a && a != n && l != n
        }),
        ({
            let ls = seq![
                type_label_text(OptionType::Bool),
                type_label_text(OptionType::Int { min: None, max: None }),
                type_label_text(OptionType::Float),
                type_label_text(OptionType::Str),
                type_label_text(OptionType::Path),
                type_label_text(OptionType::Package)
            ];
            forall|i: int, j: int| 0 <= i < j < 6 ==> #[trigger] ls[i] != #[trigger] ls[j]
        }),
{
    reveal_strlit("list of ");
    reveal_strlit("attrs of ");
    reveal_strlit("null or ");
    let t = type_label_text(e);
    let l = "list of "@ + t;
    let a = "attrs of "@ + t;
    let n = "null or "@ + t;
    assert(l.take(8) =~= "list of "@ && l.skip(8) =~= t);
    assert(a.take(9) =~= "attrs of "@ && a.skip(9) =~= t);
    assert(n.take(8) =~= "null or "@ && n.skip(8) =~= t);
    assert(l[0] == 'l' && a[0] == 'a' && n[0] == 'n');
    reveal_strlit("bool");
    reveal_strlit("int");
    reveal_strlit("float");
    reveal_strlit("string");
    reveal_strlit("path");
    reveal_strlit("package");
    let ls = seq!["bool"@, "int"@, "float"@, "string"@, "path"@, "package"@];
    assert("bool"@.len() == 4 && "bool"@[0] == 'b');
    assert("int"@.len() == 3);
    assert("float"@.len() == 5);
    assert("string"@.len() == 6);
    assert("path"@.len() == 4 && "path"@[0] == 'p');
    assert("package"@.len() == 7);
    assert forall|i: int, j: int| 0 <= i < j < 6 implies #[trigger] ls[i] != #[trigger] ls[j] by {
        assert(ls[i].len() != ls[j].len() || ls[i][0] != ls[j][0]);
    }
}

/// The label of a type.
pub fn type_label(ty: &OptionType) -> (r: String)
    ensures
        r@ == type_label_text(*ty),
    decreases ty,
{
    match ty {
        OptionType::Bool => "bool".to_owned(),
        OptionType::Int { .. } => "int".to_owned(),
        OptionType::Float => "float".to_owned(),
        OptionType::Str => "string".to_owned(),
        OptionType::Path => "path".to_owned(),
        OptionType::Package => "package".to_owned(),
        OptionType::Enum { values } => {
            let mut r = "enum (".to_owned();
            let j = join_texts(values, " | ");
            r.append(j.as_str());
            r.append(")");
            r
        },
        OptionType::List { element } => {
            let mut r = "list of ".to_owned();
            let inner = type_label(element);
            r.append(inner.as_str());
            r
        },
        OptionType::Attrs { element } => {
            let mut r = "attrs of ".to_owned();
            let inner = type_label(element);
            r.append(inner.as_str());
            r
        },
        OptionType::Submodule { .. } => "submodule".to_owned(),
        OptionType::Nullable { inner } => {
            let mut r = "null or ".to_owned();
            let i = type_label(inner);
            r.append(i.as_str());
            r
        },
        OptionType::Unknown { type_str } => type_str.clone(),
    }
}

// ---------------------------------------------------------------------------
// Wrapping text
// ---------------------------------------------------------------------------

/// `cur`, a space and `w` fit within `width` bytes.
pub open spec fn fits_after(cur: Seq<char>, w: Seq<char>, width: nat) -> bool {
    byte_len(cur) + 1 + byte_len(w) <= width
}

/// The lines finished and the line being filled after laying out the words
/// `ws` greedily within `width` bytes.
pub open spec fn wrap_words(ws: Seq<Seq<char>>, width: nat) -> (Seq<Seq<char>>, Seq<char>)
    decreases ws.len(),
{
    if ws.len() == 0 {
        (Seq::empty(), Seq::empty())
    } else {
        let prev = wrap_words(ws.drop_last(), width);
        let w = ws.last();
        if prev.1.len() == 0 {
            (prev.0, w)
        } else if fits_after(prev.1, w, width) {
            (prev.0, prev.1 + seq![' '] + w)
        } else {
            (prev.0.push(prev.1), w)
        }
    }
}

/// The lines of one paragraph: its words laid out within `width` bytes, and a
/// blank line after it where `blank_after` holds.
pub open spec fn wrap_paragraph(p: Seq<char>, width: nat, blank_after: bool) -> Seq<Seq<char>> {
    let st = wrap_words(words(p), width);
    let lines = if st.1.len() > 0 { st.0.push(st.1) } else { st.0 };
    if blank_after { lines.push(Seq::empty()) } else { lines }
}

/// The lines of the paragraphs `ps`, in order.
pub open spec fn wrap_paragraphs(ps: Seq<Seq<char>>, width: nat, blank_after: bool) -> Seq<Seq<char>>
    decreases ps.len(),
{
    if ps.len() == 0 {
        Seq::empty()
    } else {
        wrap_paragraphs(ps.drop_last(), width, blank_after) + wrap_paragraph(ps.last(), width, blank_after)
    }
}

/// `text` wrapped to `width` bytes: the text whole for a zero width; else each
/// line of it laid out on its own, followed by a blank line where the text has
/// more than one line.
pub open spec fn wrapped(text: Seq<char>, width: nat) -> Seq<Seq<char>> {
    if width == 0 {
        seq![text]
    } else {
        wrap_paragraphs(split_char(text, '\n'), width, text.contains('\n'))
    }
}

/// The lines `ls` joined by single spaces.
pub open spec fn spaced(ls: Seq<Seq<char>>) -> Seq<char>
    decreases ls.len(),
{
    if ls.len() == 0 {
        Seq::empty()
    } else if ls.len() == 1 {
        ls[0]
    } else {
        spaced(ls.drop_last()) + seq![' '] + ls.last()
    }
}

/// The lines that laying out `ws` gives: the finished ones, and the one being
/// filled where it holds anything.
pub open spec fn laid_out(ws: Seq<Seq<char>>, width: nat) -> Seq<Seq<char>> {
    let st = wrap_words(ws, width);
    if st.1.len() > 0 { st.0.push(st.1) } else { st.0 }
}

/// Laying out words keeps them, in order: the lines joined by spaces are the
/// words joined by spaces; and no line is empty.
pub proof fn law_wrap_keeps_words(ws: Seq<Seq<char>>, width: nat)
    requires
        forall|w: int| 0 <= w < ws.len() ==> (#[trigger] ws[w]).len() > 0,
    ensures
        spaced(laid_out(ws, width)) == spaced(ws),
        (wrap_words(ws, width).1.len() == 0) == (ws.len() == 0),
        ws.len() == 0 ==> wrap_words(ws, width).0.len() == 0,
        forall|i: int| 0 <= i < laid_out(ws, width).len() ==> (#[trigger] laid_out(ws, width)[i]).len() > 0,
    decreases ws.len(),
{
    if ws.len() > 0 {
        let w2 = ws.drop_last();
        assert forall|w: int| 0 <= w < w2.len() implies (#[trigger] w2[w]).len() > 0 by {
            assert(w2[w] == ws[w]);
        }
        law_wrap_keeps_words(w2, width);
        let prev = wrap_words(w2, width);
        let w = ws.last();
        assert(ws[ws.len() - 1].len() > 0);
        if prev.1.len() == 0 {
            assert(laid_out(ws, width) =~= seq![w]);
            assert(w2.len() == 0);
        } else {
            let a = prev.0;
            let x = prev.1;
            assert(laid_out(w2, width) == a.push(x));
            if fits_after(x, w, width) {
                let l = a.push(x + seq![' '] + w);
                assert(laid_out(ws, width) == l);
                if a.len() == 0 {
                    assert(spaced(l) == l[0]);
                } else {
                    assert(l.drop_last() =~= a);
                    assert(a.push(x).drop_last() =~= a);
                    assert(spaced(l) =~= spaced(a) + seq![' '] + x + seq![' '] + w);
                }
            } else {
                let l = a.push(x).push(w);
                assert(laid_out(ws, width) == l);
                assert(l.drop_last() =~= a.push(x));
            }
        }
    }
}

/// The first word of a line: the part before its first space.
pub open spec fn first_word(l: Seq<char>) -> Seq<char> {
    crate::text::before_char(l, ' ')
}

/// No line could have taken the first word of the line after it: laying out is
/// greedy.
pub open spec fn greedy(ls: Seq<Seq<char>>, width: nat) -> bool {
    forall|i: int| 0 <= i < ls.len() - 1 ==> !fits_after(#[trigger] ls[i], first_word(ls[i + 1]), width)
}

/// A line followed by a space and more keeps its first word.
proof fn lemma_first_word_extend(x: Seq<char>, w: Seq<char>)
    requires
        x.len() > 0,
    ensures
        first_word(x + seq![' '] + w) == first_word(x),
{
    let y = x + seq![' '] + w;
    crate::text::lemma_char_from(x, ' ', 0);
    crate::text::lemma_char_from(y, ' ', 0);
    match crate::text::char_from(x, ' ', 0) {
        Some(i) => {
            assert(y[i] == ' ');
            match crate::text::char_from(y, ' ', 0) {
                Some(j) => {
                    if j < i {
                        assert(x[j] == y[j]);
                    }
                    assert(y.take(i) =~= x.take(i));
                },
                None => {},
            }
        },
        None => {
            assert(y[x.len() as int] == ' ');
            match crate::text::char_from(y, ' ', 0) {
                Some(j) => {
                    if j < x.len() {
                        assert(x[j] == y[j]);
                    }
                    assert(y.take(j) =~= x);
                },
                None => {},
            }
        },
    }
}

/// Laying out words is greedy: a line ends only where the next word would not
/// fit after it.
pub proof fn law_wrap_greedy(ws: Seq<Seq<char>>, width: nat)
    requires
        forall|w: int| 0 <= w < ws.len() ==> (#[trigger] ws[w]).len() > 0 && !ws[w].contains(' '),
    ensures
        greedy(laid_out(ws, width), width),
        wrap_words(ws, width).0.len() > 0 ==> wrap_words(ws, width).1.len() > 0,
    decreases ws.len(),
{
    if ws.len() > 0 {
        let w2 = ws.drop_last();
        assert forall|w: int| 0 <= w < w2.len() implies (#[trigger] w2[w]).len() > 0 && !w2[w].contains(' ') by {
            assert(w2[w] == ws[w]);
        }
        law_wrap_greedy(w2, width);
        law_wrap_keeps_words(w2, width);
        let prev = wrap_words(w2, width);
        let w = ws.last();
        assert(ws[ws.len() - 1].len() > 0 && !ws[ws.len() - 1].contains(' '));
        assert(first_word(w) == w) by {
            crate::text::lemma_char_from(w, ' ', 0);
        }
        let a = prev.0;
        let x = prev.1;
        let old = laid_out(w2, width);
        if x.len() == 0 {
            assert(laid_out(ws, width) =~= seq![w]);
        } else if fits_after(x, w, width) {
            let l = a.push(x + seq![' '] + w);
            assert(old == a.push(x));
            assert(laid_out(ws, width) == l);
            lemma_first_word_extend(x, w);
            assert forall|i: int| 0 <= i < l.len() - 1 implies !fits_after(#[trigger] l[i], first_word(l[i + 1]), width) by {
                assert(l[i] == old[i]);
                assert(!fits_after(old[i], first_word(old[i + 1]), width));
                if i + 1 < a.len() {
                    assert(l[i + 1] == old[i + 1]);
                } else {
                    assert(old[i + 1] == x);
                }
            }
        } else {
            let l = a.push(x).push(w);
            assert(old == a.push(x));
            assert(laid_out(ws, width) == l);
            assert forall|i: int| 0 <= i < l.len() - 1 implies !fits_after(#[trigger] l[i], first_word(l[i + 1]), width) by {
                if i < old.len() - 1 {
                    assert(l[i] == old[i] && l[i + 1] == old[i + 1]);
                    assert(!fits_after(old[i], first_word(old[i + 1]), width));
                } else {
                    assert(l[i] == x && l[i + 1] == w);
                }
            }
        }
    }
}

/// Wrapping a paragraph keeps its words, in order (its lines joined by spaces
/// are its words joined by spaces), leaves no line empty, and is greedy.
pub proof fn law_paragraph_keeps_words(p: Seq<char>, width: nat)
    ensures
        spaced(wrap_paragraph(p, width, false)) == spaced(words(p)),
        greedy(wrap_paragraph(p, width, false), width),
        forall|i: int| 0 <= i < wrap_paragraph(p, width, false).len() ==> (#[trigger] wrap_paragraph(p, width, false)[i]).len() > 0,
{
    crate::text::lemma_words_solid(p, 0);
    assert forall|w: int| 0 <= w < words(p).len() implies (#[trigger] words(p)[w]).len() > 0 && !words(p)[w].contains(' ') by {
        assert(crate::text::solid(words(p)[w]));
        if words(p)[w].contains(' ') {
            let j = choose|j: int| 0 <= j < words(p)[w].len() && words(p)[w][j] == ' ';
            assert(!crate::text::is_white_space(words(p)[w][j]));
        }
    }
    law_wrap_keeps_words(words(p), width);
    law_wrap_greedy(words(p), width);
    assert(wrap_paragraph(p, width, false) == laid_out(words(p), width));
}

/// A line fits within `width` bytes, or is a single word too long to break.
pub open spec fn line_fits(l: Seq<char>, width: nat) -> bool {
    byte_len(l) <= width || !l.contains(' ')
}

/// Laying out words keeps every line within the width, but for a word longer
/// than the width, which stands on a line of its own.
proof fn lemma_wrap_words_fit(ws: Seq<Seq<char>>, width: nat)
    requires
        forall|w: int| 0 <= w < ws.len() ==> !(#[trigger] ws[w]).contains(' '),
    ensures
        forall|i: int| 0 <= i < wrap_words(ws, width).0.len() ==> line_fits(#[trigger] wrap_words(ws, width).0[i], width),
        line_fits(wrap_words(ws, width).1, width),
    decreases ws.len(),
{
    if ws.len() > 0 {
        let prev = wrap_words(ws.drop_last(), width);
        assert forall|w: int| 0 <= w < ws.drop_last().len() implies !(#[trigger] ws.drop_last()[w]).contains(' ') by {
            assert(ws.drop_last()[w] == ws[w]);
        }
        lemma_wrap_words_fit(ws.drop_last(), width);
        assert(!ws[ws.len() - 1].contains(' '));
        let st = wrap_words(ws, width);
        if prev.1.len() > 0 && !fits_after(prev.1, ws.last(), width) {
            assert forall|i: int| 0 <= i < st.0.len() implies line_fits(#[trigger] st.0[i], width) by {
                if i < prev.0.len() {
                    assert(st.0[i] == prev.0[i]);
                }
            }
        }
        if prev.1.len() > 0 && fits_after(prev.1, ws.last(), width) {
            assert(seq![' '].drop_last() =~= Seq::<char>::empty());
            assert(byte_len(seq![' ']) == 1) by {
                reveal_with_fuel(byte_len, 2);
            }
            crate::text::lemma_byte_len_concat(prev.1, seq![' ']);
            crate::text::lemma_byte_len_concat(prev.1 + seq![' '], ws.last());
        }
    }
}

/// Every line of wrapped text fits within the width, unless it is a single
/// word longer than the width (for a zero width the text is left whole).
pub proof fn law_wrapped_lines_fit(text: Seq<char>, width: nat)
    requires
        width > 0,
    ensures
        forall|i: int| 0 <= i < wrapped(text, width).len() ==> line_fits(#[trigger] wrapped(text, width)[i], width),
{
    let ps = split_char(text, '\n');
    lemma_paragraphs_fit(ps, width, text.contains('\n'));
}

proof fn lemma_paragraphs_fit(ps: Seq<Seq<char>>, width: nat, blank_after: bool)
    ensures
        forall|i: int| 0 <= i < wrap_paragraphs(ps, width, blank_after).len() ==> line_fits(#[trigger] wrap_paragraphs(ps, width, blank_after)[i], width),
    decreases ps.len(),
{
    if ps.len() > 0 {
        lemma_paragraphs_fit(ps.drop_last(), width, blank_after);
        let p = ps.last();
        let ws = words(p);
        crate::text::lemma_words_solid(p, 0);
        assert forall|w: int| 0 <= w < ws.len() implies !(#[trigger] ws[w]).contains(' ') by {
            assert(crate::text::solid(ws[w]));
            if ws[w].contains(' ') {
                let j = choose|j: int| 0 <= j < ws[w].len() && ws[w][j] == ' ';
                assert(!crate::text::is_white_space(ws[w][j]));
            }
        }
        lemma_wrap_words_fit(ws, width);
        let front = wrap_paragraphs(ps.drop_last(), width, blank_after);
        let last = wrap_paragraph(p, width, blank_after);
        let st = wrap_words(ws, width);
        let mid = if st.1.len() > 0 { st.0.push(st.1) } else { st.0 };
        assert forall|i: int| 0 <= i < mid.len() implies line_fits(#[trigger] mid[i], width) by {
            if i < st.0.len() {
                assert(mid[i] == st.0[i]);
            }
        }
        assert(line_fits(Seq::<char>::empty(), width));
        assert forall|i: int| 0 <= i < last.len() implies line_fits(#[trigger] last[i], width) by {
            if i < mid.len() {
                assert(last[i] == mid[i]);
            }
        }
        let all = front + last;
        assert forall|i: int| 0 <= i < all.len() implies line_fits(#[trigger] all[i], width) by {
            if i < front.len() {
                assert(all[i] == front[i]);
            } else {
                assert(all[i] == last[i - front.len()]);
            }
        }
    }
}

/// Whether `cur`, a space and `w` fit within `width` bytes.
fn fits(cur: &str, w: &str, width: usize) -> (r: bool)
    ensures
        r == fits_after(cur@, w@, width as nat),
{
    match (utf8_len(cur), utf8_len(w)) {
        (Some(a), Some(b)) => a < width && b <= width - a - 1,
        _ => false,
    }
}

/// Wraps `text` to lines of at most `width` bytes where its words allow.
pub fn wrap_text(text: &str, width: usize) -> (r: Vec<String>)
    ensures
        views(r@) == wrapped(text@, width as nat),
{
    if width == 0 {
        let mut v: Vec<String> = Vec::new();
        v.push(text.to_owned());
        assert(views(v@) =~= seq![text@]);
        return v;
    }
    let blank_after = has_char(text, '\n');
    let paragraphs = split_text(text, '\n');
    let ghost ps = views(paragraphs@);
    let mut lines: Vec<String> = Vec::new();
    let mut k: usize = 0;
    while k < paragraphs.len()
        invariant
            ps == views(paragraphs@),
            width > 0,
            k <= paragraphs@.len(),
            views(lines@) == wrap_paragraphs(ps.take(k as int), width as nat, blank_after),
        decreases paragraphs@.len() - k,
    {
        let ghost base = views(lines@);
        let ws = split_words(paragraphs[k].as_str());
        let ghost wv = views(ws@);
        let mut current = String::new();
        let mut i: usize = 0;
        while i < ws.len()
            invariant
                wv == views(ws@),
                i <= ws@.len(),
                views(lines@) == base + wrap_words(wv.take(i as int), width as nat).0,
                current@ == wrap_words(wv.take(i as int), width as nat).1,
            decreases ws@.len() - i,
        {
            let ghost prev = wrap_words(wv.take(i as int), width as nat);
            assert(wv.take(i + 1).drop_last() =~= wv.take(i as int));
            assert(wv.take(i + 1).last() == ws@[i as int]@);
            let word = ws[i].as_str();
            if current.as_str().unicode_len() == 0 {
                current = word.to_owned();
            } else if fits(current.as_str(), word, width) {
                push_char(&mut current, ' ');
                current.append(word);
            } else {
                let ghost lv = views(lines@);
                lines.push(current);
                assert(views(lines@) =~= lv.push(prev.1));
                assert(base + prev.0.push(prev.1) =~= (base + prev.0).push(prev.1));
                current = word.to_owned();
            }
            i += 1;
        }
        assert(wv.take(ws@.len() as int) =~= wv);
        let ghost st = wrap_words(wv, width as nat);
        if current.as_str().unicode_len() > 0 {
            let ghost lv = views(lines@);
            lines.push(current);
            assert(views(lines@) =~= lv.push(st.1));
        }
        if blank_after {
            let ghost lv = views(lines@);
            lines.push(String::new());
            assert(views(lines@) =~= lv.push(Seq::empty()));
        }
        proof {
            assert(ps.take(k + 1).drop_last() =~= ps.take(k as int));
            assert(ps.take(k + 1).last() == paragraphs@[k as int]@);
            let para = wrap_paragraph(paragraphs@[k as int]@, width as nat, blank_after);
            let mid = if st.1.len() > 0 { st.0.push(st.1) } else { st.0 };
            assert(base + mid =~= if st.1.len() > 0 { (base + st.0).push(st.1) } else { base + st.0 });
            assert(base + para =~= if blank_after { (base + mid).push(Seq::empty()) } else { base + mid });
        }
        k += 1;
    }
    assert(ps.take(paragraphs@.len() as int) =~= ps);
    lines
}

// ---------------------------------------------------------------------------
// Layout
// ---------------------------------------------------------------------------

/// A rectangle of terminal cells.
#[derive(Debug, Clone, Copy, PartialEq, Eq, Structural)]
pub struct Area {
    pub x: u16,
    pub y: u16,
    pub width: u16,
    pub height: u16,
}

/// The half of what is left of `total` after `used`, rounded down; none where
/// nothing is left.
pub open spec fn half_left(total: u16, used: int) -> int {
    if total >= used { (total - used) / 2 } else { 0 }
}

/// A box `percent_x` percent as wide as `area` and `height` rows high, centred
/// in it (as far as `area` has room; integer division rounds down).
pub fn centered_rect(percent_x: u16, height: u16, area: Area) -> (r: Area)
    requires
        area.width * percent_x <= u16::MAX,
        area.x + half_left(area.width, area.width * percent_x / 100) <= u16::MAX,
        area.y + half_left(area.height, height as int) <= u16::MAX,
    ensures
        r.width == area.width * percent_x / 100,
        r.height == height,
        r.x == area.x + half_left(area.width, r.width as int),
        r.y == area.y + half_left(area.height, height as int),
{
    let popup_width = area.width * percent_x / 100;
    let x = (area.width.saturating_sub(popup_width)) / 2;
    let y = (area.height.saturating_sub(height)) / 2;
    Area { x: area.x + x, y: area.y + y, width: popup_width, height }
}


// ---------------------------------------------------------------------------
// Header and footer
// ---------------------------------------------------------------------------

/// The breadcrumb in the header for a screen.
pub open spec fn breadcrumb_text(s: Screen) -> Seq<char> {
    match s {
        Screen::CategoryList { path } => if path@.len() == 0 {
            " nixcfg › system configuration"@
        } else {
            " nixcfg › "@ + join(views(path@), " › "@)
        },
        Screen::EditOption { option_name } => " nixcfg › "@ + option_name@,
        Screen::Search { .. } => " nixcfg › search"@,
        _ => " nixcfg"@,
    }
}

/// The breadcrumb for `screen`.
pub fn breadcrumb(screen: &Screen) -> (r: String)
    ensures
        r@ == breadcrumb_text(*screen),
{
    match screen {
        Screen::CategoryList { path } => {
            if path.len() == 0 {
                " nixcfg › system configuration".to_owned()
            } else {
                let j = join_texts(path, " › ");
                concat(" nixcfg › ", j.as_str())
            }
        },
        Screen::EditOption { option_name } => concat(" nixcfg › ", option_name.as_str()),
        Screen::Search { .. } => " nixcfg › search".to_owned(),
        _ => " nixcfg".to_owned(),
    }
}

/// What the header says of unsaved changes.
pub open spec fn save_text(dirty: bool, pending: nat) -> Seq<char> {
    if dirty {
        " ● "@ + nat_text(pending) + " unsaved"@
    } else {
        " ✓ saved"@
    }
}

/// The header's note on unsaved changes.
pub fn save_indicator(dirty: bool, pending: usize) -> (r: String)
    ensures
        r@ == save_text(dirty, pending as nat),
{
    if dirty {
        let mut r = " ● ".to_owned();
        let n = count_string(pending);
        r.append(n.as_str());
        r.append(" unsaved");
        r
    } else {
        " ✓ saved".to_owned()
    }
}

/// The key hints in the footer for the top screen of `app`.
pub open spec fn footer_text(app: App) -> Seq<char> {
    match app.top() {
        Screen::CategoryList { .. } => "↑↓ navigate  enter expand/edit  / search  s save  a apply  u undo  ? help  q quit"@,
        Screen::EditOption { option_name } => match seq_lookup(app.schema.entries(), option_name@) {
            Some(o) => hint_text(o.option_type),
            None => "esc back"@,
        },
        Screen::Search { .. } => "↑↓ navigate  enter select  esc cancel"@,
        Screen::Confirm(_) => "y confirm  n / esc cancel"@,
        _ => "esc back  q quit"@,
    }
}

/// The footer's key hints.
pub fn footer_hint(app: &App) -> (r: &'static str)
    requires
        app.screen_stack@.len() > 0,
    ensures
        r@ == footer_text(*app),
{
    match app.current_screen() {
        Screen::CategoryList { .. } => "↑↓ navigate  enter expand/edit  / search  s save  a apply  u undo  ? help  q quit",
        Screen::EditOption { option_name } => match app.schema.option_named(option_name.as_str()) {
            Some(o) => o.option_type.widget_hint(),
            None => "esc back",
        },
        Screen::Search { .. } => "↑↓ navigate  enter select  esc cancel",
        Screen::Confirm(_) => "y confirm  n / esc cancel",
        _ => "esc back  q quit",
    }
}

/// A status message reports an error.
pub open spec fn is_error_status(s: Seq<char>) -> bool {
    starts_with(s, "error"@) || starts_with(s, "Error"@)
}

/// Whether a status message reports an error.
pub fn status_is_error(status: &str) -> (r: bool)
    ensures
        r == is_error_status(status@),
{
    starts_with_text(status, "error") || starts_with_text(status, "Error")
}

// ---------------------------------------------------------------------------
// Colours by meaning
// ---------------------------------------------------------------------------

/// The colour a piece of text is drawn in, by what it means: the terminal's
/// own colour, white, grey, the accent of titles, muted notes, borders, and
/// what stands out, succeeded or went wrong.
#[derive(Debug, Clone, Copy, PartialEq, Eq, Structural)]
pub enum Tone {
    Default,
    White,
    Gray,
    Accent,
    Muted,
    Border,
    Highlight,
    Success,
    Danger,
}

/// The emphasis of a piece of text.
#[derive(Debug, Clone, Copy, PartialEq, Eq, Structural)]
pub enum Weight {
    Normal,
    Bold,
    Italic,
    Blink,
}

/// The tone of a line of build output: errors, then warnings, stand out.
pub open spec fn log_tone_of(line: Seq<char>) -> Tone {
    if contains_text(line, "error"@) || contains_text(line, "Error"@) {
        Tone::Danger
    } else if contains_text(line, "warn"@) {
        Tone::Highlight
    } else {
        Tone::Gray
    }
}

/// The tone of a line of build output.
pub fn log_tone(line: &str) -> (r: Tone)
    ensures
        r == log_tone_of(line@),
{
    if contains_str(line, "error") || contains_str(line, "Error") {
        Tone::Danger
    } else if contains_str(line, "warn") {
        Tone::Highlight
    } else {
        Tone::Gray
    }
}

/// The title, the question and the tone of a confirmation dialog.
pub open spec fn confirm_spec(kind: ConfirmKind) -> (Seq<char>, Seq<char>, Tone) {
    match kind {
        ConfirmKind::Save => (" Save changes? "@, "Write pending changes to configuration.nix"@, Tone::Success),
        ConfirmKind::Apply => (" Apply to system? "@, "Run nixos-rebuild switch — this modifies your running system"@, Tone::Highlight),
        ConfirmKind::Discard => (" Discard changes? "@, "All unsaved edits will be lost"@, Tone::Danger),
        ConfirmKind::Quit => (" Quit with unsaved changes? "@, "Pending edits will be lost"@, Tone::Danger),
    }
}

/// The title, the question and the tone of the dialog for `kind`.
pub fn confirm_text(kind: ConfirmKind) -> (r: (&'static str, &'static str, Tone))
    ensures
        (r.0@, r.1@, r.2) == confirm_spec(kind),
{
    match kind {
        ConfirmKind::Save => (" Save changes? ", "Write pending changes to configuration.nix", Tone::Success),
        ConfirmKind::Apply => (" Apply to system? ", "Run nixos-rebuild switch — this modifies your running system", Tone::Highlight),
        ConfirmKind::Discard => (" Discard changes? ", "All unsaved edits will be lost", Tone::Danger),
        ConfirmKind::Quit => (" Quit with unsaved changes? ", "Pending edits will be lost", Tone::Danger),
    }
}

// ---------------------------------------------------------------------------
// Values as the screens show them
// ---------------------------------------------------------------------------

/// What a screen shows for the value of `name`: its current value; else its
/// default followed by `suffix`; else `fallback`.
pub open spec fn value_line(app: App, name: Seq<char>, fallback: Seq<char>, suffix: Seq<char>) -> Seq<char> {
    match app.state.value_of(name) {
        Some(v) => shown(v),
        None => match seq_lookup(app.schema.entries(), name) {
            Some(o) => match o.default {
                Some(d) => display_text(d) + suffix,
                None => fallback,
            },
            None => fallback,
        },
    }
}

/// The value of `name` as a screen shows it.
pub fn value_text(app: &App, name: &str, fallback: &str, suffix: &str) -> (r: String)
    ensures
        r@ == value_line(*app, name@, fallback@, suffix@),
{
    match app.state.get(name) {
        Some(v) => {
            proof { lemma_shown(*v); }
            v.display()
        },
        None => match app.schema.option_named(name) {
            Some(o) => match &o.default {
                Some(d) => {
                    let t = d.display();
                    concat(t.as_str(), suffix)
                },
                None => fallback.to_owned(),
            },
            None => fallback.to_owned(),
        },
    }
}

/// A row of an option list: the marker of an unsaved change, the padded short
/// name and the value.
pub struct OptionRow {
    pub dirty: bool,
    pub label: String,
    pub value: String,
}

/// The row that lists the option `name`.
pub fn option_row(app: &App, name: &str) -> (r: OptionRow)
    ensures
        r.dirty == app.state.pending_names().contains(name@),
        r.label@ == pad_right(last_segment(name@), 28),
        r.value@ == value_line(*app, name@, "—"@, " (default)"@),
{
    let value = value_text(app, name, "—", " (default)");
    let dirty_names = app.state.dirty_names();
    let mut dirty = false;
    let mut i: usize = 0;
    while i < dirty_names.len()
        invariant
            dirty_names@.map_values(|s: &String| s@) == app.state.pending_names(),
            i <= dirty_names@.len(),
            dirty == app.state.pending_names().take(i as int).contains(name@),
        decreases dirty_names@.len() - i,
    {
        let ghost names = app.state.pending_names();
        assert(names[i as int] == dirty_names@[i as int]@);
        if same_text(dirty_names[i].as_str(), name) {
            dirty = true;
        }
        proof {
            let t0 = names.take(i as int);
            let t1 = names.take(i + 1);
            assert(t1 =~= t0.push(names[i as int]));
            if names[i as int] == name@ {
                assert(t1[i as int] == name@);
            }
            if t1.contains(name@) && !t0.contains(name@) {
                let j = choose|j: int| 0 <= j < t1.len() && #[trigger] t1[j] == name@;
                if j < i {
                    assert(t0[j] == t1[j]);
                }
            }
            if t0.contains(name@) {
                let j = choose|j: int| 0 <= j < t0.len() && #[trigger] t0[j] == name@;
                assert(t1[j] == name@);
            }
        }
        i += 1;
    }
    assert(app.state.pending_names().take(dirty_names@.len() as int) =~= app.state.pending_names());
    let short = last_segment_of(name);
    let label = padded(short, 28);
    OptionRow { dirty, label, value }
}

/// The number of the first `n` names that lie under the dotted `path`.
pub open spec fn count_under(names: Seq<Seq<char>>, path: Seq<char>, n: int) -> nat
    decreases n,
{
    if n <= 0 || n > names.len() {
        0
    } else {
        count_under(names, path, n - 1) + if starts_with(names[n - 1], path + "."@) { 1nat } else { 0nat }
    }
}

/// The number of options under the dotted `path`.
pub fn category_count(schema: &SchemaStore, path: &str) -> (r: usize)
    ensures
        r == count_under(entry_keys(schema.entries()), path@, schema.entries().len() as int),
{
    let search = concat(path, ".");
    let n = schema.len();
    let ghost names = entry_keys(schema.entries());
    let mut count: usize = 0;
    let mut i: usize = 0;
    while i < n
        invariant
            n == schema.entries().len(),
            names == entry_keys(schema.entries()),
            search@ == path@ + "."@,
            i <= n,
            count == count_under(names, path@, i as int),
            count <= i,
        decreases n - i,
    {
        if let Some((name, _)) = schema.option_at(i) {
            assert(names[i as int] == name@);
            if starts_with_text(name.as_str(), search.as_str()) {
                count += 1;
            }
        }
        i += 1;
    }
    count
}

/// The switch position shown for the boolean option `name`: its current
/// boolean value, else its boolean default, else off.
pub open spec fn switch_on(app: App, name: Seq<char>) -> bool {
    match app.state.value_of(name) {
        Some(ValueView::Bool(b)) => b,
        _ => match seq_lookup(app.schema.entries(), name) {
            Some(o) => match o.default {
                Some(OptionValue::Bool(b)) => b,
                _ => false,
            },
            None => false,
        },
    }
}

/// The switch position shown for `name`.
pub fn switch_shown(app: &App, name: &str) -> (r: bool)
    ensures
        r == switch_on(*app, name@),
{
    match app.state.get(name) {
        Some(OptionValue::Bool(b)) => *b,
        _ => match app.schema.option_named(name) {
            Some(o) => match &o.default {
                Some(OptionValue::Bool(b)) => *b,
                _ => false,
            },
            None => false,
        },
    }
}

/// The choice shown as taken for the enum option `name`: its current string
/// value, else its string default, else nothing.
pub open spec fn enum_taken(app: App, name: Seq<char>) -> Seq<char> {
    match app.state.value_of(name) {
        Some(ValueView::Str(s)) => s,
        _ => match seq_lookup(app.schema.entries(), name) {
            Some(o) => match o.default {
                Some(OptionValue::Str(s)) => s@,
                _ => Seq::empty(),
            },
            None => Seq::empty(),
        },
    }
}

/// The choice shown as taken for `name`.
pub fn enum_shown(app: &App, name: &str) -> (r: String)
    ensures
        r@ == enum_taken(*app, name@),
{
    match app.state.get(name) {
        Some(OptionValue::Str(s)) => s.clone(),
        _ => match app.schema.option_named(name) {
            Some(o) => match &o.default {
                Some(OptionValue::Str(s)) => s.clone(),
                _ => String::new(),
            },
            None => String::new(),
        },
    }
}

/// A choice of an enum as the editor lists it: the taken one bracketed.
pub open spec fn choice_label(v: Seq<char>, taken: Seq<char>) -> Seq<char> {
    if v == taken {
        " [ "@ + v + " ] "@
    } else {
        "  "@ + v + "  "@
    }
}

/// The labels of the choices `values`, each with whether it is the one taken.
pub fn choice_labels(values: &Vec<String>, taken: &str) -> (r: Vec<(String, bool)>)
    ensures
        r@.len() == values@.len(),
        forall|i: int| 0 <= i < r@.len() ==> (#[trigger] r@[i]).0@ == choice_label(values@[i]@, taken@)
            && r@[i].1 == (values@[i]@ == taken@),
{
    let mut out: Vec<(String, bool)> = Vec::new();
    let mut i: usize = 0;
    while i < values.len()
        invariant
            i <= values@.len(),
            out@.len() == i,
            forall|j: int| 0 <= j < i ==> (#[trigger] out@[j]).0@ == choice_label(values@[j]@, taken@)
                && out@[j].1 == (values@[j]@ == taken@),
        decreases values@.len() - i,
    {
        let v = values[i].as_str();
        let chosen = same_text(v, taken);
        let label = if chosen {
            let mut l = concat(" [ ", v);
            l.append(" ] ");
            l
        } else {
            let mut l = concat("  ", v);
            l.append("  ");
            l
        };
        out.push((label, chosen));
        i += 1;
    }
    out
}

/// The nullable option `name` shows as disabled: it has no value, or the
/// value null.
pub open spec fn null_on(app: App, name: Seq<char>) -> bool {
    match app.state.value_of(name) {
        Some(ValueView::Null) => true,
        Some(_) => false,
        None => true,
    }
}

/// Whether the nullable option `name` shows as disabled.
pub fn null_shown(app: &App, name: &str) -> (r: bool)
    ensures
        r == null_on(*app, name@),
{
    match app.state.get(name) {
        Some(OptionValue::Null) => true,
        Some(_) => false,
        None => true,
    }
}

/// The byte offset where the cursor stands in a buffer of `s`: the cursor
/// held to the end of the buffer.
pub open spec fn cursor_offset(s: Seq<char>, cursor: usize) -> nat {
    if cursor < byte_len(s) { cursor as nat } else { byte_len(s) }
}

/// The number of characters of `s` that take `k` bytes, where there is one.
pub open spec fn chars_in_bytes(s: Seq<char>, k: nat) -> int {
    choose|i: int| 0 <= i <= s.len() && byte_len(s.take(i)) == k
}

/// `k` bytes of `s` end on a character boundary.
pub open spec fn on_boundary(s: Seq<char>, k: nat) -> bool {
    exists|i: int| 0 <= i <= s.len() && byte_len(s.take(i)) == k
}

/// A longer prefix takes more bytes.
proof fn lemma_prefix_bytes_grow(s: Seq<char>, i: int, j: int)
    requires
        0 <= i < j <= s.len(),
    ensures
        byte_len(s.take(i)) < byte_len(s.take(j)),
    decreases j - i,
{
    assert(s.take(j).drop_last() =~= s.take(j - 1));
    if i < j - 1 {
        lemma_prefix_bytes_grow(s, i, j - 1);
    }
}

/// The input buffer split at the cursor (a byte offset, held to the end of the
/// buffer), for drawing the cursor between the two parts.
pub fn input_split(buf: &str, cursor: usize) -> (r: (String, String))
    requires
        byte_len(buf@) <= usize::MAX,
        on_boundary(buf@, cursor_offset(buf@, cursor)),
    ensures
        ({
            let i = chars_in_bytes(buf@, cursor_offset(buf@, cursor));
            r.0@ == buf@.take(i) && r.1@ == buf@.skip(i)
        }),
{
    let cs = chars_of(buf);
    let total = match utf8_len(buf) {
        Some(t) => t,
        None => 0,
    };
    let k = if cursor < total { cursor } else { total };
    let ghost target = chars_in_bytes(buf@, k as nat);
    proof {
        assert(cs@.take(cs@.len() as int) =~= cs@);
        assert(target == chars_in_bytes(buf@, cursor_offset(buf@, cursor)));
    }
    let mut i: usize = 0;
    let mut acc: usize = 0;
    while i < cs.len() && acc < k
        invariant
            cs@ == buf@,
            0 <= target <= cs@.len(),
            byte_len(cs@.take(target)) == k,
            i <= target,
            acc == byte_len(cs@.take(i as int)),
        decreases cs@.len() - i,
    {
        proof {
            assert(cs@.take(i + 1).drop_last() =~= cs@.take(i as int));
            if i as int == target {
                assert(false);
            }
            if i + 1 < target {
                lemma_prefix_bytes_grow(cs@, i + 1, target);
            }
        }
        acc = acc + char_width(cs[i]);
        i += 1;
    }
    proof {
        if i < target {
            lemma_prefix_bytes_grow(cs@, i as int, target);
        }
    }
    let before = string_of(&cs, 0, i);
    let after = string_of(&cs, i, cs.len());
    assert(before@ =~= buf@.take(i as int));
    assert(after@ =~= buf@.skip(i as int));
    (before, after)
}


// ---------------------------------------------------------------------------
// Lines as the screens draw them
// ---------------------------------------------------------------------------

/// A run of text drawn in one style.
#[derive(Debug, Clone, PartialEq)]
pub struct Piece {
    pub text: String,
    pub tone: Tone,
    pub weight: Weight,
}

/// What a piece is, with its text taken as its characters.
pub struct PieceView {
    pub text: Seq<char>,
    pub tone: Tone,
    pub weight: Weight,
}

impl View for Piece {
    type V = PieceView;

    open spec fn view(&self) -> PieceView {
        PieceView { text: self.text@, tone: self.tone, weight: self.weight }
    }
}

/// The piece of `text` in `tone` and `weight`.
pub open spec fn pv(text: Seq<char>, tone: Tone, weight: Weight) -> PieceView {
    PieceView { text, tone, weight }
}

/// The views of a line of pieces.
pub open spec fn pieces_view(v: Seq<Piece>) -> Seq<PieceView> {
    v.map_values(|p: Piece| p@)
}

/// The views of lines of pieces.
pub open spec fn lines_view(v: Seq<Vec<Piece>>) -> Seq<Seq<PieceView>> {
    v.map_values(|l: Vec<Piece>| pieces_view(l@))
}

/// A line of one piece of unstyled text.
pub open spec fn plain_line(t: Seq<char>) -> Seq<PieceView> {
    seq![pv(t, Tone::Default, Weight::Normal)]
}

/// Appends a piece to a line.
fn push_piece(line: &mut Vec<Piece>, text: String, tone: Tone, weight: Weight)
    ensures
        pieces_view(final(line)@) == pieces_view(old(line)@).push(pv(text@, tone, weight)),
{
    let ghost before = line@;
    line.push(Piece { text, tone, weight });
    assert(pieces_view(line@) =~= pieces_view(before).push(pv(text@, tone, weight)));
}

/// Appends a line to lines.
fn push_line(lines: &mut Vec<Vec<Piece>>, line: Vec<Piece>)
    ensures
        lines_view(final(lines)@) == lines_view(old(lines)@).push(pieces_view(line@)),
{
    let ghost before = lines@;
    let ghost l = pieces_view(line@);
    lines.push(line);
    assert(lines_view(lines@) =~= lines_view(before).push(l));
}

/// A line of one piece.
fn line_of(text: String, tone: Tone, weight: Weight) -> (r: Vec<Piece>)
    ensures
        pieces_view(r@) == seq![pv(text@, tone, weight)],
{
    let mut r: Vec<Piece> = Vec::new();
    push_piece(&mut r, text, tone, weight);
    assert(pieces_view(r@) =~= seq![pv(text@, tone, weight)]);
    r
}

/// A line of a label and a value.
fn labelled(label: &str, label_tone: Tone, value: String, value_tone: Tone) -> (r: Vec<Piece>)
    ensures
        pieces_view(r@) == seq![pv(label@, label_tone, Weight::Normal), pv(value@, value_tone, Weight::Normal)],
{
    let mut r: Vec<Piece> = Vec::new();
    push_piece(&mut r, label.to_owned(), label_tone, Weight::Normal);
    push_piece(&mut r, value, value_tone, Weight::Normal);
    assert(pieces_view(r@) =~= seq![pv(label@, label_tone, Weight::Normal), pv(value@, value_tone, Weight::Normal)]);
    r
}

/// The header line: where the user is, and whether there are unsaved edits.
pub open spec fn header_spec(app: App) -> Seq<PieceView> {
    let dirty = app.state.pending().len() > 0;
    seq![
        pv(breadcrumb_text(app.top()), Tone::White, Weight::Bold),
        pv("  "@, Tone::Default, Weight::Normal),
        pv(save_text(dirty, app.state.pending().len()), if dirty { Tone::Highlight } else { Tone::Success }, Weight::Normal),
    ]
}

/// The header line of `app`.
pub fn header_pieces(app: &App) -> (r: Vec<Piece>)
    requires
        app.screen_stack@.len() > 0,
    ensures
        pieces_view(r@) == header_spec(*app),
{
    let dirty = app.state.is_dirty();
    let pending = app.state.pending_count();
    let mut r: Vec<Piece> = Vec::new();
    push_piece(&mut r, breadcrumb(app.current_screen()), Tone::White, Weight::Bold);
    push_piece(&mut r, "  ".to_owned(), Tone::Default, Weight::Normal);
    push_piece(&mut r, save_indicator(dirty, pending), if dirty { Tone::Highlight } else { Tone::Success }, Weight::Normal);
    assert(pieces_view(r@) =~= header_spec(*app));
    r
}

/// The row of a list item: a category by its last segment; an option with a
/// mark for an unsaved edit, its padded short name and its value.
pub open spec fn row_spec(app: App, item: ItemView) -> Seq<PieceView> {
    match item {
        ItemView::Category(p) => seq![
            pv("  "@, Tone::Default, Weight::Normal),
            pv(last_segment(p), Tone::White, Weight::Bold),
            pv("  ›"@, Tone::Muted, Weight::Normal),
        ],
        ItemView::Option(n) => {
            let dirty = app.state.pending_names().contains(n);
            seq![
                pv(if dirty { "● "@ } else { "  "@ }, Tone::Highlight, Weight::Normal),
                pv(pad_right(last_segment(n), 28), Tone::White, Weight::Normal),
                pv(value_line(app, n, "—"@, " (default)"@), if dirty { Tone::Highlight } else { Tone::Muted }, Weight::Normal),
            ]
        },
    }
}

/// The row of `item`.
pub fn row_pieces(app: &App, item: &ListItem) -> (r: Vec<Piece>)
    ensures
        pieces_view(r@) == row_spec(*app, item@),
{
    let mut r: Vec<Piece> = Vec::new();
    match item {
        ListItem::Category(_) => {
            push_piece(&mut r, "  ".to_owned(), Tone::Default, Weight::Normal);
            push_piece(&mut r, item.display_name().to_owned(), Tone::White, Weight::Bold);
            push_piece(&mut r, "  ›".to_owned(), Tone::Muted, Weight::Normal);
        },
        ListItem::Option(name) => {
            let row = option_row(app, name.as_str());
            let dirty = row.dirty;
            push_piece(&mut r, if dirty { "● ".to_owned() } else { "  ".to_owned() }, Tone::Highlight, Weight::Normal);
            push_piece(&mut r, row.label, Tone::White, Weight::Normal);
            push_piece(&mut r, row.value, if dirty { Tone::Highlight } else { Tone::Muted }, Weight::Normal);
        },
    }
    assert(pieces_view(r@) =~= row_spec(*app, item@));
    r
}

/// The title of a category list: the root lists categories, any other level
/// options.
pub fn list_title(path: &Vec<String>) -> (r: Piece)
    ensures
        r@ == pv(if path@.len() == 0 { " Categories "@ } else { " Options "@ }, Tone::Accent, Weight::Bold),
{
    let t = if path.len() == 0 { " Categories ".to_owned() } else { " Options ".to_owned() };
    Piece { text: t, tone: Tone::Accent, weight: Weight::Bold }
}

/// The wrapped lines of a description, in grey.
pub open spec fn description_spec(text: Seq<char>, width: nat) -> Seq<Seq<PieceView>> {
    wrapped(text, width).map_values(|l: Seq<char>| seq![pv(l, Tone::Gray, Weight::Normal)])
}

/// Appends the wrapped lines of a description to `lines`.
fn push_description(lines: &mut Vec<Vec<Piece>>, text: &str, width: usize)
    ensures
        lines_view(final(lines)@) == lines_view(old(lines)@) + description_spec(text@, width as nat),
{
    let wrapped_lines = wrap_text(text, width);
    let ghost base = lines_view(lines@);
    let ghost ws = views(wrapped_lines@);
    let mut i: usize = 0;
    while i < wrapped_lines.len()
        invariant
            ws == views(wrapped_lines@),
            ws == wrapped(text@, width as nat),
            i <= wrapped_lines@.len(),
            lines_view(lines@) == base + description_spec(text@, width as nat).take(i as int),
        decreases wrapped_lines@.len() - i,
    {
        let ghost before = lines_view(lines@);
        let l = line_of(wrapped_lines[i].clone(), Tone::Gray, Weight::Normal);
        push_line(lines, l);
        assert(ws[i as int] == wrapped_lines@[i as int]@);
        assert(description_spec(text@, width as nat).take(i + 1) =~= description_spec(text@, width as nat).take(i as int).push(seq![pv(ws[i as int], Tone::Gray, Weight::Normal)]));
        assert(lines_view(lines@) =~= base + description_spec(text@, width as nat).take(i + 1));
        i += 1;
    }
    assert(description_spec(text@, width as nat).take(wrapped_lines@.len() as int) =~= description_spec(text@, width as nat));
}

/// The wrapped lines of a description.
pub fn description_lines(text: &str, width: usize) -> (r: Vec<Vec<Piece>>)
    ensures
        lines_view(r@) == description_spec(text@, width as nat),
{
    let mut r: Vec<Vec<Piece>> = Vec::new();
    push_description(&mut r, text, width);
    assert(lines_view(r@) =~= description_spec(text@, width as nat));
    r
}

/// The details of the option `o` listed as `name`: its name, type, current
/// value and default where it has them, its description wrapped to `width`
/// bytes, and the file declaring it where known.
pub open spec fn option_detail(app: App, name: Seq<char>, o: NixOption, width: nat) -> Seq<Seq<PieceView>> {
    let head = seq![
        seq![pv(o.name@, Tone::White, Weight::Bold)],
        plain_line(Seq::empty()),
        seq![pv("Type:  "@, Tone::Muted, Weight::Normal), pv(type_label_text(o.option_type), Tone::Accent, Weight::Normal)],
    ];
    let value = match app.state.value_of(name) {
        Some(v) => seq![seq![pv("Value: "@, Tone::Muted, Weight::Normal), pv(shown(v), Tone::Highlight, Weight::Normal)]],
        None => Seq::empty(),
    };
    let default = match o.default {
        Some(d) => seq![seq![pv("Default: "@, Tone::Muted, Weight::Normal), pv(display_text(d), Tone::Muted, Weight::Normal)]],
        None => Seq::empty(),
    };
    let source = match o.declared_in {
        Some(src) => seq![plain_line(Seq::empty()), seq![pv("⟨ "@ + src@ + " ⟩"@, Tone::Muted, Weight::Italic)]],
        None => Seq::empty(),
    };
    head + value + default + seq![plain_line(Seq::empty())] + description_spec(o.description@, width) + source
}

/// The detail panel beside a category list, for the selected item.
pub open spec fn detail_spec(app: App, width: nat) -> Seq<Seq<PieceView>> {
    match selected(app) {
        Some(ItemView::Option(name)) => match seq_lookup(app.schema.entries(), name) {
            Some(o) => option_detail(app, name, o, width),
            None => seq![plain_line("No option data"@)],
        },
        Some(ItemView::Category(p)) => seq![
            seq![pv(last_segment(p), Tone::White, Weight::Bold)],
            plain_line(Seq::empty()),
            seq![pv(nat_text(count_under(entry_keys(app.schema.entries()), p, app.schema.entries().len() as int)) + " options"@, Tone::Muted, Weight::Normal)],
            plain_line(Seq::empty()),
            seq![pv("Press Enter to expand"@, Tone::Muted, Weight::Italic)],
        ],
        None => seq![plain_line("Nothing selected"@)],
    }
}

/// The detail panel of `app`, its description wrapped to `width` bytes.
pub fn detail_lines(app: &App, width: usize) -> (r: Vec<Vec<Piece>>)
    requires
        app.screen_stack@.len() > 0,
    ensures
        lines_view(r@) == detail_spec(*app, width as nat),
{
    let mut r: Vec<Vec<Piece>> = Vec::new();
    match app.selected_item() {
        Some(ListItem::Option(name)) => {
            match app.schema.option_named(name.as_str()) {
                Some(o) => {
                    push_line(&mut r, line_of(o.name.clone(), Tone::White, Weight::Bold));
                    push_line(&mut r, line_of(String::new(), Tone::Default, Weight::Normal));
                    push_line(&mut r, labelled("Type:  ", Tone::Muted, type_label(&o.option_type), Tone::Accent));
                    let ghost head = lines_view(r@);
                    match app.state.get(name.as_str()) {
                        Some(v) => {
                            proof { lemma_shown(*v); }
                            push_line(&mut r, labelled("Value: ", Tone::Muted, v.display(), Tone::Highlight));
                        },
                        None => {},
                    }
                    let ghost with_value = lines_view(r@);
                    match &o.default {
                        Some(d) => {
                            push_line(&mut r, labelled("Default: ", Tone::Muted, d.display(), Tone::Muted));
                        },
                        None => {},
                    }
                    let ghost with_default = lines_view(r@);
                    push_line(&mut r, line_of(String::new(), Tone::Default, Weight::Normal));
                    push_description(&mut r, o.description.as_str(), width);
                    let ghost with_desc = lines_view(r@);
                    match &o.declared_in {
                        Some(src) => {
                            push_line(&mut r, line_of(String::new(), Tone::Default, Weight::Normal));
                            let mut t = concat("⟨ ", src.as_str());
                            t.append(" ⟩");
                            push_line(&mut r, line_of(t, Tone::Muted, Weight::Italic));
                        },
                        None => {},
                    }
                    proof {
                        reveal_strlit("");
                        assert(""@ =~= Seq::<char>::empty());
                        assert(lines_view(r@) =~= option_detail(*app, name@, *o, width as nat));
                    }
                },
                None => {
                    push_line(&mut r, line_of("No option data".to_owned(), Tone::Default, Weight::Normal));
                    assert(lines_view(r@) =~= detail_spec(*app, width as nat));
                },
            }
        },
        Some(ListItem::Category(path)) => {
            let count = category_count(&app.schema, path.as_str());
            push_line(&mut r, line_of(last_segment_of(path.as_str()).to_owned(), Tone::White, Weight::Bold));
            push_line(&mut r, line_of(String::new(), Tone::Default, Weight::Normal));
            let mut t = count_string(count);
            t.append(" options");
            push_line(&mut r, line_of(t, Tone::Muted, Weight::Normal));
            push_line(&mut r, line_of(String::new(), Tone::Default, Weight::Normal));
            push_line(&mut r, line_of("Press Enter to expand".to_owned(), Tone::Muted, Weight::Italic));
            proof {
                reveal_strlit("");
                assert(""@ =~= Seq::<char>::empty());
                assert(lines_view(r@) =~= detail_spec(*app, width as nat));
            }
        },
        None => {
            push_line(&mut r, line_of("Nothing selected".to_owned(), Tone::Default, Weight::Normal));
            assert(lines_view(r@) =~= detail_spec(*app, width as nat));
        },
    }
    r
}


/// The head of the editor of `o`, listed as `name`: its name, its type and
/// the value it shows.
pub open spec fn edit_info_spec(app: App, o: NixOption, name: Seq<char>) -> Seq<Seq<PieceView>> {
    seq![
        seq![pv(o.name@, Tone::White, Weight::Bold)],
        seq![pv("type:    "@, Tone::Muted, Weight::Normal), pv(type_label_text(o.option_type), Tone::Accent, Weight::Normal)],
        seq![pv("current: "@, Tone::Muted, Weight::Normal), pv(value_line(app, name, "not set"@, " (default)"@), Tone::Highlight, Weight::Normal)],
    ]
}

/// The head of the editor of `opt`.
pub fn edit_info_lines(app: &App, opt: &NixOption, name: &str) -> (r: Vec<Vec<Piece>>)
    ensures
        lines_view(r@) == edit_info_spec(*app, *opt, name@),
{
    let mut r: Vec<Vec<Piece>> = Vec::new();
    push_line(&mut r, line_of(opt.name.clone(), Tone::White, Weight::Bold));
    push_line(&mut r, labelled("type:    ", Tone::Muted, type_label(&opt.option_type), Tone::Accent));
    push_line(&mut r, labelled("current: ", Tone::Muted, value_text(app, name, "not set", " (default)"), Tone::Highlight));
    assert(lines_view(r@) =~= edit_info_spec(*app, *opt, name@));
    r
}

/// The border of the value editor: highlighted while typing.
pub open spec fn editor_border_spec(mode: AppMode) -> Tone {
    if mode == AppMode::Editing { Tone::Highlight } else { Tone::Border }
}

/// The border tone of the value editor.
pub fn editor_border(mode: AppMode) -> (r: Tone)
    ensures
        r == editor_border_spec(mode),
{
    if mode == AppMode::Editing { Tone::Highlight } else { Tone::Border }
}

/// A choice of an enum in the editor: the taken one highlighted and bold.
pub open spec fn choice_piece(v: Seq<char>, taken: Seq<char>) -> PieceView {
    if v == taken {
        pv(choice_label(v, taken), Tone::Highlight, Weight::Bold)
    } else {
        pv(choice_label(v, taken), Tone::Muted, Weight::Normal)
    }
}

/// The editor of a text or number: while typing, the buffer with the cursor
/// drawn at its place; else the value shown with a hint.
pub open spec fn text_editor_spec(app: App, name: Seq<char>) -> Seq<PieceView> {
    if app.mode == AppMode::Editing {
        let i = chars_in_bytes(app.input_buf@, cursor_offset(app.input_buf@, app.input_cursor));
        seq![
            pv(app.input_buf@.take(i), Tone::White, Weight::Normal),
            pv("│"@, Tone::Highlight, Weight::Blink),
            pv(app.input_buf@.skip(i), Tone::White, Weight::Normal),
            pv("   enter to confirm  esc to cancel"@, Tone::Muted, Weight::Normal),
        ]
    } else {
        seq![
            pv(value_line(app, name, "—"@, ""@), Tone::White, Weight::Normal),
            pv("   enter to edit"@, Tone::Muted, Weight::Normal),
        ]
    }
}

/// Whether the editor of a type is a text field.
pub open spec fn typed_in(t: OptionType) -> bool {
    t is Str || t is Path || t is Int || t is Float
}

/// The value editor of `o`, listed as `name`, by the widget of its type.
pub open spec fn editor_spec(app: App, o: NixOption, name: Seq<char>) -> Seq<PieceView> {
    if typed_in(o.option_type) {
        text_editor_spec(app, name)
    } else {
        match o.option_type {
            OptionType::Bool => {
                let on = switch_on(app, name);
                seq![
                    pv(if on { "  [ ON ]  off  "@ } else { "  on  [ OFF ]  "@ }, if on { Tone::Success } else { Tone::Danger }, Weight::Bold),
                    pv("   space to toggle"@, Tone::Muted, Weight::Normal),
                ]
            },
            OptionType::Enum { values } => {
                let t = enum_taken(app, name);
                seq![pv("← "@, Tone::Muted, Weight::Normal)] + views(values@).map_values(|v: Seq<char>| choice_piece(v, t))
                    + seq![pv(" →"@, Tone::Muted, Weight::Normal)]
            },
            OptionType::Nullable { .. } => {
                let off = null_on(app, name);
                seq![
                    pv(if off { "  [ disabled ]  enable  "@ } else { "  disable  [ enabled ]  "@ }, if off { Tone::Muted } else { Tone::Success }, Weight::Bold),
                    pv("   space to toggle"@, Tone::Muted, Weight::Normal),
                ]
            },
            _ => seq![pv("Complex type — "@ + hint_text(o.option_type), Tone::Default, Weight::Normal)],
        }
    }
}

/// The value editor of `opt`; while typing, the cursor must stand on a
/// character boundary of the buffer.
pub fn editor_pieces(app: &App, opt: &NixOption, name: &str) -> (r: Vec<Piece>)
    requires
        typed_in(opt.option_type) && app.mode == AppMode::Editing ==> {
            &&& byte_len(app.input_buf@) <= usize::MAX
            &&& on_boundary(app.input_buf@, cursor_offset(app.input_buf@, app.input_cursor))
        },
    ensures
        pieces_view(r@) == editor_spec(*app, *opt, name@),
{
    let mut r: Vec<Piece> = Vec::new();
    let typed = match &opt.option_type {
        OptionType::Str => true,
        OptionType::Path => true,
        OptionType::Int { .. } => true,
        OptionType::Float => true,
        _ => false,
    };
    if typed {
        if app.mode == AppMode::Editing {
            let (before, after) = input_split(app.input_buf.as_str(), app.input_cursor);
            push_piece(&mut r, before, Tone::White, Weight::Normal);
            push_piece(&mut r, "│".to_owned(), Tone::Highlight, Weight::Blink);
            push_piece(&mut r, after, Tone::White, Weight::Normal);
            push_piece(&mut r, "   enter to confirm  esc to cancel".to_owned(), Tone::Muted, Weight::Normal);
        } else {
            push_piece(&mut r, value_text(app, name, "—", ""), Tone::White, Weight::Normal);
            push_piece(&mut r, "   enter to edit".to_owned(), Tone::Muted, Weight::Normal);
        }
        assert(pieces_view(r@) =~= editor_spec(*app, *opt, name@));
        return r;
    }
    match &opt.option_type {
        OptionType::Bool => {
            let on = switch_shown(app, name);
            push_piece(&mut r, if on { "  [ ON ]  off  ".to_owned() } else { "  on  [ OFF ]  ".to_owned() }, if on { Tone::Success } else { Tone::Danger }, Weight::Bold);
            push_piece(&mut r, "   space to toggle".to_owned(), Tone::Muted, Weight::Normal);
        },
        OptionType::Enum { values } => {
            let taken = enum_shown(app, name);
            push_piece(&mut r, "← ".to_owned(), Tone::Muted, Weight::Normal);
            let labels = choice_labels(values, taken.as_str());
            let ghost vs = views(values@);
            let ghost front = pieces_view(r@);
            let mut i: usize = 0;
            while i < labels.len()
                invariant
                    vs == views(values@),
                    labels@.len() == values@.len(),
                    forall|j: int| 0 <= j < labels@.len() ==> (#[trigger] labels@[j]).0@ == choice_label(values@[j]@, taken@)
                        && labels@[j].1 == (values@[j]@ == taken@),
                    i <= labels@.len(),
                    pieces_view(r@) == front + vs.take(i as int).map_values(|v: Seq<char>| choice_piece(v, taken@)),
                decreases labels@.len() - i,
            {
                let (label, chosen) = &labels[i];
                let ghost before = pieces_view(r@);
                if *chosen {
                    push_piece(&mut r, label.clone(), Tone::Highlight, Weight::Bold);
                } else {
                    push_piece(&mut r, label.clone(), Tone::Muted, Weight::Normal);
                }
                assert(vs[i as int] == values@[i as int]@);
                assert(vs.take(i + 1).map_values(|v: Seq<char>| choice_piece(v, taken@))
                    =~= vs.take(i as int).map_values(|v: Seq<char>| choice_piece(v, taken@)).push(choice_piece(vs[i as int], taken@)));
                assert(pieces_view(r@) =~= front + vs.take(i + 1).map_values(|v: Seq<char>| choice_piece(v, taken@)));
                i += 1;
            }
            assert(vs.take(labels@.len() as int) =~= vs);
            push_piece(&mut r, " →".to_owned(), Tone::Muted, Weight::Normal);
        },
        OptionType::Nullable { .. } => {
            let off = null_shown(app, name);
            push_piece(&mut r, if off { "  [ disabled ]  enable  ".to_owned() } else { "  disable  [ enabled ]  ".to_owned() }, if off { Tone::Muted } else { Tone::Success }, Weight::Bold);
            push_piece(&mut r, "   space to toggle".to_owned(), Tone::Muted, Weight::Normal);
        },
        _ => {
            let t = concat("Complex type — ", opt.option_type.widget_hint());
            push_piece(&mut r, t, Tone::Default, Weight::Normal);
        },
    }
    assert(pieces_view(r@) =~= editor_spec(*app, *opt, name@));
    r
}

/// The footer: the key hints, and the status message coloured by whether it
/// reports an error.
pub open spec fn footer_spec(app: App) -> (PieceView, PieceView) {
    let status = match app.status_msg {
        Some(m) => m@,
        None => Seq::empty(),
    };
    (
        pv(" "@ + footer_text(app), Tone::Muted, Weight::Normal),
        pv(" "@ + status, if is_error_status(status) { Tone::Danger } else { Tone::Success }, Weight::Normal),
    )
}

/// The footer of `app`.
pub fn footer_pieces(app: &App) -> (r: (Piece, Piece))
    requires
        app.screen_stack@.len() > 0,
    ensures
        (r.0@, r.1@) == footer_spec(*app),
{
    let hint = concat(" ", footer_hint(app));
    let status: &str = match &app.status_msg {
        Some(m) => m.as_str(),
        None => "",
    };
    proof {
        reveal_strlit("");
        assert(""@ =~= Seq::<char>::empty());
    }
    let tone = if status_is_error(status) { Tone::Danger } else { Tone::Success };
    (
        Piece { text: hint, tone: Tone::Muted, weight: Weight::Normal },
        Piece { text: concat(" ", status), tone, weight: Weight::Normal },
    )
}

/// The search box: a prompt, the query and a cursor after it.
pub fn search_pieces(query: &str) -> (r: Vec<Piece>)
    ensures
        pieces_view(r@) == seq![
            pv("/ "@, Tone::Accent, Weight::Bold),
            pv(query@, Tone::White, Weight::Normal),
            pv("│"@, Tone::Highlight, Weight::Blink),
        ],
{
    let mut r: Vec<Piece> = Vec::new();
    push_piece(&mut r, "/ ".to_owned(), Tone::Accent, Weight::Bold);
    push_piece(&mut r, query.to_owned(), Tone::White, Weight::Normal);
    push_piece(&mut r, "│".to_owned(), Tone::Highlight, Weight::Blink);
    assert(pieces_view(r@) =~= seq![
        pv("/ "@, Tone::Accent, Weight::Bold),
        pv(query@, Tone::White, Weight::Normal),
        pv("│"@, Tone::Highlight, Weight::Blink),
    ]);
    r
}

/// The title over search results: how many there are.
pub fn results_title(count: usize) -> (r: Piece)
    ensures
        r@ == pv(" "@ + nat_text(count as nat) + " results "@, Tone::Muted, Weight::Normal),
{
    let mut t = concat(" ", count_string(count).as_str());
    t.append(" results ");
    Piece { text: t, tone: Tone::Muted, weight: Weight::Normal }
}

/// The body of a confirmation dialog: the question, then the keys to answer.
pub open spec fn dialog_spec(kind: ConfirmKind) -> Seq<Seq<PieceView>> {
    seq![
        plain_line(Seq::empty()),
        seq![pv(confirm_spec(kind).1, Tone::White, Weight::Normal)],
        plain_line(Seq::empty()),
        seq![pv("  [ y ] yes   "@, Tone::Success, Weight::Bold), pv("[ n ] no / cancel  "@, Tone::Muted, Weight::Normal)],
    ]
}

/// The body of the dialog for `kind`.
pub fn dialog_lines(kind: ConfirmKind) -> (r: Vec<Vec<Piece>>)
    ensures
        lines_view(r@) == dialog_spec(kind),
{
    let (_, body, _) = confirm_text(kind);
    let mut r: Vec<Vec<Piece>> = Vec::new();
    push_line(&mut r, line_of(String::new(), Tone::Default, Weight::Normal));
    push_line(&mut r, line_of(body.to_owned(), Tone::White, Weight::Normal));
    push_line(&mut r, line_of(String::new(), Tone::Default, Weight::Normal));
    let mut keys: Vec<Piece> = Vec::new();
    push_piece(&mut keys, "  [ y ] yes   ".to_owned(), Tone::Success, Weight::Bold);
    push_piece(&mut keys, "[ n ] no / cancel  ".to_owned(), Tone::Muted, Weight::Normal);
    assert(pieces_view(keys@) =~= seq![pv("  [ y ] yes   "@, Tone::Success, Weight::Bold), pv("[ n ] no / cancel  "@, Tone::Muted, Weight::Normal)]);
    push_line(&mut r, keys);
    proof {
        reveal_strlit("");
        assert(""@ =~= Seq::<char>::empty());
    }
    assert(lines_view(r@) =~= dialog_spec(kind));
    r
}

/// The lines of build output, each in the tone of what it reports.
pub fn log_pieces(lines: &Vec<String>) -> (r: Vec<Piece>)
    ensures
        pieces_view(r@) == views(lines@).map_values(|l: Seq<char>| pv(l, log_tone_of(l), Weight::Normal)),
{
    let ghost ls = views(lines@);
    let mut r: Vec<Piece> = Vec::new();
    let mut i: usize = 0;
    while i < lines.len()
        invariant
            ls == views(lines@),
            i <= lines@.len(),
            pieces_view(r@) == ls.take(i as int).map_values(|l: Seq<char>| pv(l, log_tone_of(l), Weight::Normal)),
        decreases lines@.len() - i,
    {
        let t = log_tone(lines[i].as_str());
        push_piece(&mut r, lines[i].clone(), t, Weight::Normal);
        assert(ls[i as int] == lines@[i as int]@);
        assert(ls.take(i + 1).map_values(|l: Seq<char>| pv(l, log_tone_of(l), Weight::Normal))
            =~= ls.take(i as int).map_values(|l: Seq<char>| pv(l, log_tone_of(l), Weight::Normal)).push(pv(ls[i as int], log_tone_of(ls[i as int]), Weight::Normal)));
        i += 1;
    }
    assert(ls.take(lines@.len() as int) =~= ls);
    r
}

/// The text shown while loading.
pub fn loading_text(message: &str) -> (r: String)
    ensures
        r@ == "⟳  "@ + message@,
{
    concat("⟳  ", message)
}

/// A title framed by spaces, as the boxes show titles.
pub fn framed_title(title: &str) -> (r: String)
    ensures
        r@ == " "@ + title@ + " "@,
{
    let mut t = concat(" ", title);
    t.append(" ");
    t
}

/// The path of the category list under a confirmation dialog: the screen
/// below the dialog, where that is a category list.
pub open spec fn list_under_spec(app: App) -> Option<Seq<Seq<char>>> {
    let n = app.screen_stack@.len();
    if n >= 2 {
        match app.screen_stack@[n - 2] {
            Screen::CategoryList { path } => Some(views(path@)),
            _ => None,
        }
    } else {
        None
    }
}

/// The path of the category list under a confirmation dialog.
pub fn list_under(app: &App) -> (r: Option<&Vec<String>>)
    ensures
        match (r, list_under_spec(*app)) {
            (Some(p), Some(q)) => views(p@) == q,
            (None, None) => true,
            _ => false,
        },
{
    let n = app.screen_stack.len();
    if n >= 2 {
        match &app.screen_stack[n - 2] {
            Screen::CategoryList { path } => Some(path),
            _ => None,
        }
    } else {
        None
    }
}

} // verus!
