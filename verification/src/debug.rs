use vstd::prelude::*;

use crate::option::{option_view, type_view, values_view, entries_view, NixOption, OptionType, OptionValue, OptionView, TypeView, ValueView};
use crate::text::{int_string, int_text, join, join_texts, owned, views};

verus! {

// ---------------------------------------------------------------------------
// The debug form of options, types and values: what `{:?}` prints for them,
// field by field, as `derive(Debug)` lays it out.
// ---------------------------------------------------------------------------

/// What std's `Debug` prints for a string: the string quoted, with escapes.
pub uninterp spec fn str_debug_text(s: Seq<char>) -> Seq<char>;

/// The debug form of a string: std's `Debug` for `str`.
#[verifier::external_body]
fn str_debug(s: &str) -> (r: String)
    ensures
        r@ == str_debug_text(s@),
{
    format!("{:?}", s)
}

/// `true` or `false`.
pub open spec fn bool_debug(b: bool) -> Seq<char> {
    if b { "true"@ } else { "false"@ }
}

/// An optional integer: `None` or `Some(n)`.
pub open spec fn int_opt_debug(n: Option<i64>) -> Seq<char> {
    match n {
        Some(x) => "Some("@ + int_text(x as int) + ")"@,
        None => "None"@,
    }
}

/// An optional string: `None` or `Some("…")`.
pub open spec fn text_opt_debug(s: Option<Seq<char>>) -> Seq<char> {
    match s {
        Some(x) => "Some("@ + str_debug_text(x) + ")"@,
        None => "None"@,
    }
}

/// A list: its items between brackets, separated by a comma and a space.
pub open spec fn list_debug(parts: Seq<Seq<char>>) -> Seq<char> {
    "["@ + join(parts, ", "@) + "]"@
}

/// A map: its `key: value` entries between braces, separated by a comma and a
/// space.
pub open spec fn map_debug(parts: Seq<Seq<char>>) -> Seq<char> {
    "{"@ + join(parts, ", "@) + "}"@
}

/// One entry of a map: the quoted key, a colon, a space and the value.
pub open spec fn entry_debug(k: Seq<char>, v: Seq<char>) -> Seq<char> {
    str_debug_text(k) + ": "@ + v
}

/// The debug form of a value.
pub open spec fn value_debug_form(v: ValueView) -> Seq<char>
    decreases v,
{
    match v {
        ValueView::Bool(b) => "Bool("@ + bool_debug(b) + ")"@,
        ValueView::Int(n) => "Int("@ + int_text(n as int) + ")"@,
        ValueView::Float(_, _, d) => "Float("@ + d + ")"@,
        ValueView::Str(s) => "Str("@ + str_debug_text(s) + ")"@,
        ValueView::List(items) => "List("@ + list_debug(value_debug_forms(items)) + ")"@,
        ValueView::Attrs(es) => "Attrs("@ + map_debug(attr_debug_forms(es)) + ")"@,
        ValueView::Null => "Null"@,
    }
}

/// The debug forms of a list of values.
pub open spec fn value_debug_forms(items: Seq<ValueView>) -> Seq<Seq<char>>
    decreases items,
{
    Seq::new(items.len(), |i: int| if 0 <= i < items.len() { value_debug_form(items[i]) } else { Seq::empty() })
}

/// The debug forms of the entries of a map of values.
pub open spec fn attr_debug_forms(es: Seq<(Seq<char>, ValueView)>) -> Seq<Seq<char>>
    decreases es,
{
    Seq::new(es.len(), |i: int| if 0 <= i < es.len() {
        proof { assert(decreases_to!(es => es[i])); }
        entry_debug(es[i].0, value_debug_form(es[i].1))
    } else {
        Seq::empty()
    })
}

/// An optional value: `None` or `Some(…)`.
pub open spec fn value_opt_debug(v: Option<ValueView>) -> Seq<char> {
    match v {
        Some(x) => "Some("@ + value_debug_form(x) + ")"@,
        None => "None"@,
    }
}

/// The debug form of a type.
pub open spec fn type_debug_form(t: TypeView) -> Seq<char>
    decreases t,
{
    match t {
        TypeView::Bool => "Bool"@,
        TypeView::Int(min, max) => "Int { min: "@ + int_opt_debug(min) + ", max: "@ + int_opt_debug(max) + " }"@,
        TypeView::Float => "Float"@,
        TypeView::Str => "Str"@,
        TypeView::Path => "Path"@,
        TypeView::Package => "Package"@,
        TypeView::Enum(vs) => "Enum { values: "@ + list_debug(vs.map_values(|s: Seq<char>| str_debug_text(s))) + " }"@,
        TypeView::List(e) => "List { element: "@ + type_debug_form(*e) + " }"@,
        TypeView::Attrs(e) => "Attrs { element: "@ + type_debug_form(*e) + " }"@,
        TypeView::Submodule(os) => "Submodule { options: "@ + map_debug(option_debug_forms(os)) + " }"@,
        TypeView::Nullable(i) => "Nullable { inner: "@ + type_debug_form(*i) + " }"@,
        TypeView::Unknown(s) => "Unknown { type_str: "@ + str_debug_text(s) + " }"@,
    }
}

/// The debug forms of the entries of a map of options.
pub open spec fn option_debug_forms(os: Seq<(Seq<char>, OptionView)>) -> Seq<Seq<char>>
    decreases os,
{
    Seq::new(os.len(), |i: int| if 0 <= i < os.len() {
        proof { assert(decreases_to!(os => os[i])); }
        entry_debug(os[i].0, option_debug_form(os[i].1))
    } else {
        Seq::empty()
    })
}

/// The debug form of an option.
pub open spec fn option_debug_form(o: OptionView) -> Seq<char>
    decreases o,
{
    "NixOption { name: "@ + str_debug_text(o.name)
        + ", description: "@ + str_debug_text(o.description)
        + ", option_type: "@ + type_debug_form(o.option_type)
        + ", default: "@ + value_opt_debug(o.default)
        + ", example: "@ + value_opt_debug(o.example)
        + ", declared: "@ + bool_debug(o.declared)
        + ", declared_in: "@ + text_opt_debug(o.declared_in)
        + " }"@
}

/// `s` with `t` added.
fn append_text(s: &mut String, t: &str)
    ensures
        final(s)@ == old(s)@ + t@,
{
    s.append(t);
}

fn bool_debug_text(b: bool) -> (r: String)
    ensures
        r@ == bool_debug(b),
{
    if b { owned("true") } else { owned("false") }
}

fn value_opt_debug_text(v: &Option<OptionValue>) -> (r: String)
    ensures
        r@ == value_opt_debug(crate::option::opt_view(*v)),
{
    match v {
        Some(x) => {
            let mut s = owned("Some(");
            let d = x.debug_text();
            append_text(&mut s, d.as_str());
            append_text(&mut s, ")");
            s
        },
        None => owned("None"),
    }
}

fn text_opt_debug_text(v: &Option<String>) -> (r: String)
    ensures
        r@ == text_opt_debug(crate::option::opt_text(*v)),
{
    match v {
        Some(x) => {
            let mut s = owned("Some(");
            let d = str_debug(x.as_str());
            append_text(&mut s, d.as_str());
            append_text(&mut s, ")");
            s
        },
        None => owned("None"),
    }
}

fn int_opt_debug_text(n: Option<i64>) -> (r: String)
    ensures
        r@ == int_opt_debug(n),
{
    match n {
        Some(x) => {
            let mut s = owned("Some(");
            let d = int_string(x);
            append_text(&mut s, d.as_str());
            append_text(&mut s, ")");
            s
        },
        None => owned("None"),
    }
}

/// `pre`, the parts as a list, and `post`.
fn list_text(pre: &str, parts: &Vec<String>, post: &str) -> (r: String)
    ensures
        r@ == pre@ + list_debug(views(parts@)) + post@,
{
    let mut s = owned("[");
    let j = join_texts(parts, ", ");
    append_text(&mut s, j.as_str());
    append_text(&mut s, "]");
    let mut r = owned(pre);
    append_text(&mut r, s.as_str());
    append_text(&mut r, post);
    r
}

/// `pre`, the parts as a map, and `post`.
fn map_text(pre: &str, parts: &Vec<String>, post: &str) -> (r: String)
    ensures
        r@ == pre@ + map_debug(views(parts@)) + post@,
{
    let mut s = owned("{");
    let j = join_texts(parts, ", ");
    append_text(&mut s, j.as_str());
    append_text(&mut s, "}");
    let mut r = owned(pre);
    append_text(&mut r, s.as_str());
    append_text(&mut r, post);
    r
}

impl OptionValue {
    /// What `{:?}` prints for the value.
    pub fn debug_text(&self) -> (r: String)
        ensures
            r@ == value_debug_form(self@),
        decreases self,
    {
        match self {
            OptionValue::Bool(b) => {
                let mut s = owned("Bool(");
                let d = bool_debug_text(*b);
                append_text(&mut s, d.as_str());
                append_text(&mut s, ")");
                s
            },
            OptionValue::Int(n) => {
                let mut s = owned("Int(");
                let d = int_string(*n);
                append_text(&mut s, d.as_str());
                append_text(&mut s, ")");
                s
            },
            OptionValue::Float(f) => {
                let mut s = owned("Float(");
                append_text(&mut s, f.debug.as_str());
                append_text(&mut s, ")");
                s
            },
            OptionValue::Str(x) => {
                let mut s = owned("Str(");
                let d = str_debug(x.as_str());
                append_text(&mut s, d.as_str());
                append_text(&mut s, ")");
                s
            },
            OptionValue::List(items) => {
                let ghost forms = value_debug_forms(values_view(items@));
                let mut parts: Vec<String> = Vec::new();
                let mut i: usize = 0;
                while i < items.len()
                    invariant
                        *self is List,
                        (*self)->List_0 == *items,
                        forms == value_debug_forms(values_view(items@)),
                        i <= items@.len(),
                        views(parts@) =~= forms.take(i as int),
                    decreases items@.len() - i,
                {
                    proof {
                        broadcast use vstd::std_specs::vec::group_vec_axioms;
                        assert(decreases_to!(*self => (*self)->List_0));
                        assert(decreases_to!(*items => items[i as int]));
                    }
                    let d = items[i].debug_text();
                    let ghost prev = parts@;
                    parts.push(d);
                    proof {
                        assert(values_view(items@)[i as int] == items@[i as int]@);
                        assert(forms[i as int] == d@);
                        assert(views(parts@) =~= views(prev).push(d@));
                        assert(forms.take(i + 1) =~= forms.take(i as int).push(forms[i as int]));
                    }
                    i += 1;
                }
                assert(forms.take(items@.len() as int) =~= forms);
                list_text("List(", &parts, ")")
            },
            OptionValue::Attrs(m) => {
                let ghost forms = attr_debug_forms(entries_view(*m));
                let mut parts: Vec<String> = Vec::new();
                let mut i: usize = 0;
                while i < m.len()
                    invariant
                        *self is Attrs,
                        (*self)->Attrs_0 == *m,
                        forms == attr_debug_forms(entries_view(*m)),
                        i <= m@.len(),
                        views(parts@) =~= forms.take(i as int),
                    decreases m@.len() - i,
                {
                    let (k, v) = m.entry_at(i);
                    proof {
                        m.lemma_value_decreases(i as int);
                        assert(decreases_to!(*self => (*self)->Attrs_0));
                    }
                    let mut p = str_debug(k.as_str());
                    append_text(&mut p, ": ");
                    let d = v.debug_text();
                    append_text(&mut p, d.as_str());
                    let ghost prev = parts@;
                    parts.push(p);
                    proof {
                        assert(entries_view(*m)[i as int] == (m@[i as int].0, m@[i as int].1@));
                        assert(forms[i as int] == p@);
                        assert(views(parts@) =~= views(prev).push(p@));
                        assert(forms.take(i + 1) =~= forms.take(i as int).push(forms[i as int]));
                    }
                    i += 1;
                }
                assert(forms.take(m@.len() as int) =~= forms);
                map_text("Attrs(", &parts, ")")
            },
            OptionValue::Null => owned("Null"),
        }
    }
}

impl OptionType {
    /// What `{:?}` prints for the type.
    pub fn debug_text(&self) -> (r: String)
        ensures
            r@ == type_debug_form(self@),
        decreases self,
    {
        match self {
            OptionType::Bool => owned("Bool"),
            OptionType::Int { min, max } => {
                let mut s = owned("Int { min: ");
                let a = int_opt_debug_text(*min);
                append_text(&mut s, a.as_str());
                append_text(&mut s, ", max: ");
                let b = int_opt_debug_text(*max);
                append_text(&mut s, b.as_str());
                append_text(&mut s, " }");
                s
            },
            OptionType::Float => owned("Float"),
            OptionType::Str => owned("Str"),
            OptionType::Path => owned("Path"),
            OptionType::Package => owned("Package"),
            OptionType::Enum { values } => {
                let ghost forms = views(values@).map_values(|s: Seq<char>| str_debug_text(s));
                let mut parts: Vec<String> = Vec::new();
                let mut i: usize = 0;
                while i < values.len()
                    invariant
                        forms == views(values@).map_values(|s: Seq<char>| str_debug_text(s)),
                        i <= values@.len(),
                        views(parts@) =~= forms.take(i as int),
                    decreases values@.len() - i,
                {
                    let d = str_debug(values[i].as_str());
                    let ghost prev = parts@;
                    parts.push(d);
                    proof {
                        assert(forms[i as int] == d@);
                        assert(views(parts@) =~= views(prev).push(d@));
                        assert(forms.take(i + 1) =~= forms.take(i as int).push(forms[i as int]));
                    }
                    i += 1;
                }
                assert(forms.take(values@.len() as int) =~= forms);
                list_text("Enum { values: ", &parts, " }")
            },
            OptionType::List { element } => {
                let mut s = owned("List { element: ");
                let d = element.debug_text();
                append_text(&mut s, d.as_str());
                append_text(&mut s, " }");
                s
            },
            OptionType::Attrs { element } => {
                let mut s = owned("Attrs { element: ");
                let d = element.debug_text();
                append_text(&mut s, d.as_str());
                append_text(&mut s, " }");
                s
            },
            OptionType::Submodule { options } => {
                let ghost os = match self@ {
                    TypeView::Submodule(x) => x,
                    _ => Seq::empty(),
                };
                let ghost forms = option_debug_forms(os);
                let mut parts: Vec<String> = Vec::new();
                let mut i: usize = 0;
                while i < options.len()
                    invariant
                        *self is Submodule,
                        (*self)->Submodule_options == *options,
                        os == match self@ {
                            TypeView::Submodule(x) => x,
                            _ => Seq::empty(),
                        },
                        forms == option_debug_forms(os),
                        os.len() == options@.len(),
                        i <= options@.len(),
                        views(parts@) =~= forms.take(i as int),
                    decreases options@.len() - i,
                {
                    let (k, o) = options.entry_at(i);
                    proof {
                        options.lemma_value_decreases(i as int);
                        assert(decreases_to!(*self => (*self)->Submodule_options));
                    }
                    let mut p = str_debug(k.as_str());
                    append_text(&mut p, ": ");
                    let d = o.debug_text();
                    append_text(&mut p, d.as_str());
                    let ghost prev = parts@;
                    parts.push(p);
                    proof {
                        assert(os[i as int] == (options@[i as int].0, option_view(options@[i as int].1)));
                        assert(forms[i as int] == p@);
                        assert(views(parts@) =~= views(prev).push(p@));
                        assert(forms.take(i + 1) =~= forms.take(i as int).push(forms[i as int]));
                    }
                    i += 1;
                }
                assert(forms.take(options@.len() as int) =~= forms);
                map_text("Submodule { options: ", &parts, " }")
            },
            OptionType::Nullable { inner } => {
                let mut s = owned("Nullable { inner: ");
                let d = inner.debug_text();
                append_text(&mut s, d.as_str());
                append_text(&mut s, " }");
                s
            },
            OptionType::Unknown { type_str } => {
                let mut s = owned("Unknown { type_str: ");
                let d = str_debug(type_str.as_str());
                append_text(&mut s, d.as_str());
                append_text(&mut s, " }");
                s
            },
        }
    }
}

impl NixOption {
    /// What `{:?}` prints for the option.
    pub fn debug_text(&self) -> (r: String)
        ensures
            r@ == option_debug_form(self@),
        decreases self,
    {
        let mut s = owned("NixOption { name: ");
        let d = str_debug(self.name.as_str());
        append_text(&mut s, d.as_str());
        append_text(&mut s, ", description: ");
        let d = str_debug(self.description.as_str());
        append_text(&mut s, d.as_str());
        append_text(&mut s, ", option_type: ");
        let d = self.option_type.debug_text();
        append_text(&mut s, d.as_str());
        append_text(&mut s, ", default: ");
        let d = value_opt_debug_text(&self.default);
        append_text(&mut s, d.as_str());
        append_text(&mut s, ", example: ");
        let d = value_opt_debug_text(&self.example);
        append_text(&mut s, d.as_str());
        append_text(&mut s, ", declared: ");
        let d = bool_debug_text(self.declared);
        append_text(&mut s, d.as_str());
        append_text(&mut s, ", declared_in: ");
        let d = text_opt_debug_text(&self.declared_in);
        append_text(&mut s, d.as_str());
        append_text(&mut s, " }");
        s
    }
}

} // verus!
