use vstd::prelude::*;

use crate::string_map::StringMap;
use crate::text::{concat, count_string, find_last, find_last_char, chars_of, int_string, int_text, nat_text, owned, string_of};

verus! {

/// A floating-point value as the library writes it: `plain` is what Rust's `{}`
/// prints for it, `fixed` what `{:.2}` prints and `debug` what `{:?}` prints.
#[derive(Debug, Clone, PartialEq, Eq)]
pub struct FloatText {
    pub plain: String,
    pub fixed: String,
    pub debug: String,
}

/// The type of a NixOS option, mapping directly to a TUI widget.
#[derive(Debug, PartialEq)]
pub enum OptionType {
    /// bool → toggle
    Bool,
    /// int → numeric input
    Int { min: Option<i64>, max: Option<i64> },
    /// float → numeric input
    Float,
    /// string → text input
    Str,
    /// path → text input with path hint
    Path,
    /// package → package picker
    Package,
    /// enum (one-of) → radio/select
    Enum { values: Vec<String> },
    /// listOf T → multi-entry list
    List { element: Box<OptionType> },
    /// attrsOf T → key/value editor
    Attrs { element: Box<OptionType> },
    /// submodule → nested settings page
    Submodule { options: StringMap<NixOption> },
    /// nullOr T → toggle to enable, then inner widget
    Nullable { inner: Box<OptionType> },
    /// Anything we can't parse yet — show as raw text
    Unknown { type_str: String },
}

/// A concrete value stored for an option.
#[derive(Debug, PartialEq)]
pub enum OptionValue {
    Bool(bool),
    Int(i64),
    Float(FloatText),
    Str(String),
    List(Vec<OptionValue>),
    Attrs(StringMap<OptionValue>),
    Null,
}

/// What an option value is, with its strings taken as their characters.
pub enum ValueView {
    Bool(bool),
    Int(i64),
    Float(Seq<char>, Seq<char>, Seq<char>),
    Str(Seq<char>),
    List(Seq<ValueView>),
    Attrs(Seq<(Seq<char>, ValueView)>),
    Null,
}

/// The view of a value.
pub open spec fn value_view(v: OptionValue) -> ValueView
    decreases v,
{
    match v {
        OptionValue::Bool(b) => ValueView::Bool(b),
        OptionValue::Int(n) => ValueView::Int(n),
        OptionValue::Float(f) => ValueView::Float(f.plain@, f.fixed@, f.debug@),
        OptionValue::Str(s) => ValueView::Str(s@),
        OptionValue::List(items) => {
            proof { broadcast use vstd::std_specs::vec::group_vec_axioms; assert(decreases_to!(items => items@)); }
            ValueView::List(values_view(items@))
        },
        OptionValue::Attrs(m) => ValueView::Attrs(entries_view(m)),
        OptionValue::Null => ValueView::Null,
    }
}

/// The views of a sequence of values.
pub open spec fn values_view(items: Seq<OptionValue>) -> Seq<ValueView>
    decreases items,
{
    Seq::new(items.len(), |i: int| if 0 <= i < items.len() { value_view(items[i]) } else { ValueView::Null })
}

/// The entries of a map of values, each value taken by its view.
pub open spec fn entries_view(m: StringMap<OptionValue>) -> Seq<(Seq<char>, ValueView)>
    decreases m,
{
    Seq::new(m@.len(), |i: int| if 0 <= i < m@.len() {
        (m@[i].0, {
            proof { m.lemma_value_decreases(i); }
            value_view(m@[i].1)
        })
    } else {
        (Seq::empty(), ValueView::Null)
    })
}

impl View for OptionValue {
    type V = ValueView;

    open spec fn view(&self) -> ValueView {
        value_view(*self)
    }
}

/// The view of an optional value.
pub open spec fn opt_view(v: Option<OptionValue>) -> Option<ValueView> {
    match v {
        Some(x) => Some(x@),
        None => None,
    }
}

/// What an option type is, with its strings taken as their characters; of a
/// submodule it keeps the nested options, each by its name and its view.
pub enum TypeView {
    Bool,
    Int(Option<i64>, Option<i64>),
    Float,
    Str,
    Path,
    Package,
    Enum(Seq<Seq<char>>),
    List(Box<TypeView>),
    Attrs(Box<TypeView>),
    Submodule(Seq<(Seq<char>, OptionView)>),
    Nullable(Box<TypeView>),
    Unknown(Seq<char>),
}

/// The view of a type.
pub open spec fn type_view(t: OptionType) -> TypeView
    decreases t,
{
    match t {
        OptionType::Bool => TypeView::Bool,
        OptionType::Int { min, max } => TypeView::Int(min, max),
        OptionType::Float => TypeView::Float,
        OptionType::Str => TypeView::Str,
        OptionType::Path => TypeView::Path,
        OptionType::Package => TypeView::Package,
        OptionType::Enum { values } => TypeView::Enum(crate::text::views(values@)),
        OptionType::List { element } => TypeView::List(Box::new(type_view(*element))),
        OptionType::Attrs { element } => TypeView::Attrs(Box::new(type_view(*element))),
        OptionType::Submodule { options } => TypeView::Submodule(Seq::new(options@.len(), |i: int| if 0 <= i < options@.len() {
            (options@[i].0, {
                proof { options.lemma_value_decreases(i); }
                option_view(options@[i].1)
            })
        } else {
            (Seq::empty(), OptionView {
                name: Seq::empty(),
                description: Seq::empty(),
                option_type: TypeView::Bool,
                default: None,
                example: None,
                declared: false,
                declared_in: None,
            })
        })),
        OptionType::Nullable { inner } => TypeView::Nullable(Box::new(type_view(*inner))),
        OptionType::Unknown { type_str } => TypeView::Unknown(type_str@),
    }
}

impl View for OptionType {
    type V = TypeView;

    open spec fn view(&self) -> TypeView {
        type_view(*self)
    }
}

/// What an option is, with its strings taken as their characters.
pub struct OptionView {
    pub name: Seq<char>,
    pub description: Seq<char>,
    pub option_type: TypeView,
    pub default: Option<ValueView>,
    pub example: Option<ValueView>,
    pub declared: bool,
    pub declared_in: Option<Seq<char>>,
}

/// The view of an option.
pub open spec fn option_view(o: NixOption) -> OptionView
    decreases o,
{
    OptionView {
        name: o.name@,
        description: o.description@,
        option_type: type_view(o.option_type),
        default: opt_view(o.default),
        example: opt_view(o.example),
        declared: o.declared,
        declared_in: opt_text(o.declared_in),
    }
}

/// The view of an optional string.
pub open spec fn opt_text(s: Option<String>) -> Option<Seq<char>> {
    match s {
        Some(x) => Some(x@),
        None => None,
    }
}

/// A single NixOS option as extracted from `nix eval`.
#[derive(Debug, PartialEq)]
pub struct NixOption {
    /// Dotted path, e.g. "services.openssh.enable"
    pub name: String,
    /// Human-readable description from the NixOS module docs.
    pub description: String,
    /// Type descriptor.
    pub option_type: OptionType,
    /// Default value if set.
    pub default: Option<OptionValue>,
    /// Example value from the docs.
    pub example: Option<OptionValue>,
    /// Whether this option is declared by a NixOS module.
    pub declared: bool,
    /// Nix file that declares this option (for "open source" action).
    pub declared_in: Option<String>,
}

/// The footer hint for the widget of a type.
pub open spec fn hint_text(t: OptionType) -> Seq<char> {
    match t {
        OptionType::Bool => "space to toggle"@,
        OptionType::Int { .. } => "type a number"@,
        OptionType::Float => "type a number"@,
        OptionType::Str => "type a value"@,
        OptionType::Path => "type a value"@,
        OptionType::Package => "/ to search packages"@,
        OptionType::Enum { .. } => "← → to cycle"@,
        OptionType::List { .. } => "a to add  d to delete"@,
        OptionType::Attrs { .. } => "a to add  d to delete"@,
        OptionType::Submodule { .. } => "enter to expand"@,
        OptionType::Nullable { .. } => "space to enable"@,
        OptionType::Unknown { .. } => "enter to edit raw"@,
    }
}

impl OptionType {
    /// Human-readable widget hint shown in the TUI footer.
    pub fn widget_hint(&self) -> (r: &'static str)
        ensures
            r@ == hint_text(*self),
    {
        match self {
            OptionType::Bool => "space to toggle",
            OptionType::Int { .. } => "type a number",
            OptionType::Float => "type a number",
            OptionType::Str => "type a value",
            OptionType::Path => "type a value",
            OptionType::Package => "/ to search packages",
            OptionType::Enum { .. } => "← → to cycle",
            OptionType::List { .. } => "a to add  d to delete",
            OptionType::Attrs { .. } => "a to add  d to delete",
            OptionType::Submodule { .. } => "enter to expand",
            OptionType::Nullable { .. } => "space to enable",
            OptionType::Unknown { .. } => "enter to edit raw",
        }
    }
}

/// How a value is shown in the TUI.
pub open spec fn display_text(v: OptionValue) -> Seq<char> {
    match v {
        OptionValue::Bool(b) => if b { "enabled"@ } else { "disabled"@ },
        OptionValue::Int(n) => int_text(n as int),
        OptionValue::Float(f) => f.fixed@,
        OptionValue::Str(s) => "\""@ + s@ + "\""@,
        OptionValue::List(items) => "["@ + nat_text(items.len() as nat) + " items]"@,
        OptionValue::Attrs(m) => "{ "@ + nat_text(m@.len()) + " attrs }"@,
        OptionValue::Null => "null (disabled)"@,
    }
}

/// How a value is shown, taken by its view.
pub open spec fn shown(v: ValueView) -> Seq<char> {
    match v {
        ValueView::Bool(b) => if b { "enabled"@ } else { "disabled"@ },
        ValueView::Int(n) => int_text(n as int),
        ValueView::Float(_, fixed, _) => fixed,
        ValueView::Str(s) => "\""@ + s + "\""@,
        ValueView::List(items) => "["@ + nat_text(items.len()) + " items]"@,
        ValueView::Attrs(es) => "{ "@ + nat_text(es.len()) + " attrs }"@,
        ValueView::Null => "null (disabled)"@,
    }
}

/// A value is shown as its view is.
pub proof fn lemma_shown(x: OptionValue)
    ensures
        shown(x@) == display_text(x),
{
}

/// A value fits a type: the variant that the type's widget edits; a nullable
/// type takes null, or, once enabled, a value of its inner type.
pub open spec fn value_fits(v: OptionValue, t: OptionType) -> bool
    decreases t,
{
    match (v, t) {
        (OptionValue::Bool(_), OptionType::Bool) => true,
        (OptionValue::Int(_), OptionType::Int { .. }) => true,
        (OptionValue::Float(_), OptionType::Float) => true,
        (OptionValue::Str(_), OptionType::Str) => true,
        (OptionValue::Str(_), OptionType::Path) => true,
        (OptionValue::Str(_), OptionType::Package) => true,
        (OptionValue::Str(_), OptionType::Enum { .. }) => true,
        (OptionValue::List(_), OptionType::List { .. }) => true,
        (OptionValue::Attrs(_), OptionType::Attrs { .. }) => true,
        (OptionValue::Null, OptionType::Nullable { .. }) => true,
        (_, OptionType::Nullable { inner }) => value_fits(v, *inner),
        _ => false,
    }
}

/// Every value of a widget's own variant fits the widget's type, whatever it
/// holds: booleans the toggle, integers a numeric input with any bounds,
/// floats the float input, strings a text, path, package or enum input, lists
/// a list, attribute sets an attribute set, and null or a fitting value a
/// nullable type. No other value fits a type that is not nullable.
pub proof fn law_widget_values_fit(
    b: bool,
    n: i64,
    f: FloatText,
    s: String,
    items: Vec<OptionValue>,
    m: StringMap<OptionValue>,
    min: Option<i64>,
    max: Option<i64>,
    vs: Vec<String>,
    e: OptionType,
    x: OptionValue,
)
    ensures
        value_fits(OptionValue::Bool(b), OptionType::Bool),
        value_fits(OptionValue::Int(n), OptionType::Int { min, max }),
        value_fits(OptionValue::Float(f), OptionType::Float),
        value_fits(OptionValue::Str(s), OptionType::Str),
        value_fits(OptionValue::Str(s), OptionType::Path),
        value_fits(OptionValue::Str(s), OptionType::Package),
        value_fits(OptionValue::Str(s), OptionType::Enum { values: vs }),
        value_fits(OptionValue::List(items), OptionType::List { element: Box::new(e) }),
        value_fits(OptionValue::Attrs(m), OptionType::Attrs { element: Box::new(e) }),
        value_fits(OptionValue::Null, OptionType::Nullable { inner: Box::new(e) }),
        value_fits(x, OptionType::Nullable { inner: Box::new(e) }) <==> (x is Null || value_fits(x, e)),
        value_fits(x, OptionType::Bool) ==> x is Bool,
        value_fits(x, OptionType::Int { min, max }) ==> x is Int,
        value_fits(x, OptionType::Float) ==> x is Float,
        value_fits(x, OptionType::Str) ==> x is Str,
        value_fits(x, OptionType::Path) ==> x is Str,
        value_fits(x, OptionType::Package) ==> x is Str,
        value_fits(x, OptionType::Enum { values: vs }) ==> x is Str,
        value_fits(x, OptionType::List { element: Box::new(e) }) ==> x is List,
        value_fits(x, OptionType::Attrs { element: Box::new(e) }) ==> x is Attrs,
{
}

impl OptionValue {
    /// A copy with the same view.
    pub fn duplicate(&self) -> (r: Self)
        ensures
            r@ == self@,
        decreases self,
    {
        match self {
            OptionValue::Bool(b) => OptionValue::Bool(*b),
            OptionValue::Int(n) => OptionValue::Int(*n),
            OptionValue::Float(f) => OptionValue::Float(FloatText { plain: f.plain.clone(), fixed: f.fixed.clone(), debug: f.debug.clone() }),
            OptionValue::Str(s) => OptionValue::Str(s.clone()),
            OptionValue::List(items) => {
                let mut out: Vec<OptionValue> = Vec::new();
                let mut i: usize = 0;
                while i < items.len()
                    invariant
                        *self is List,
                        (*self)->List_0 == *items,
                        i <= items@.len(),
                        out@.len() == i,
                        forall|j: int| 0 <= j < i ==> (#[trigger] out@[j])@ == items@[j]@,
                    decreases items@.len() - i,
                {
                    proof {
                        broadcast use vstd::std_specs::vec::group_vec_axioms;
                        assert(decreases_to!(*self => (*self)->List_0));
                        assert((*self)->List_0 == *items);
                        assert(decreases_to!(*items => items[i as int]));
                    }
                    let x = items[i].duplicate();
                    out.push(x);
                    i += 1;
                }
                let r = OptionValue::List(out);
                assert(value_view(r) == self@) by {
                    if let ValueView::List(a) = value_view(r) {
                        if let ValueView::List(b) = self@ {
                            assert(a =~= b);
                        }
                    }
                }
                r
            },
            OptionValue::Attrs(m) => {
                let mut out: StringMap<OptionValue> = StringMap::new();
                let mut i: usize = 0;
                proof { use_type_invariant(m); }
                while i < m.len()
                    invariant
                        *self is Attrs,
                        (*self)->Attrs_0 == *m,
                        m.wf(),
                        i <= m@.len(),
                        out@.len() == i,
                        forall|j: int| 0 <= j < i ==> (#[trigger] out@[j]).0 == m@[j].0 && out@[j].1@ == m@[j].1@,
                    decreases m@.len() - i,
                {
                    let (k, v) = m.entry_at(i);
                    proof {
                        m.lemma_value_decreases(i as int);
                        assert(decreases_to!(*self => (*self)->Attrs_0));
                        assert((*self)->Attrs_0 == *m);
                    }
                    let x = v.duplicate();
                    proof {
                        use_type_invariant(&out);
                        out.lemma_index_of(k@);
                        if out.index_of(k@) is Some {
                            let t = out.index_of(k@).unwrap();
                            assert(m@[t].0 == m@[i as int].0);
                            assert(m.keys()[t] == m.keys()[i as int]);
                        }
                    }
                    out.insert(k.clone(), x);
                    i += 1;
                }
                let r = OptionValue::Attrs(out);
                assert(value_view(r) == self@) by {
                    if let ValueView::Attrs(a) = value_view(r) {
                        if let ValueView::Attrs(b) = self@ {
                            assert(a =~= b);
                        }
                    }
                }
                r
            },
            OptionValue::Null => OptionValue::Null,
        }
    }

    pub fn display(&self) -> (r: String)
        ensures
            r@ == display_text(*self),
    {
        match self {
            OptionValue::Bool(b) => {
                if *b {
                    owned("enabled")
                } else {
                    owned("disabled")
                }
            },
            OptionValue::Int(n) => int_string(*n),
            OptionValue::Float(f) => f.fixed.clone(),
            OptionValue::Str(s) => {
                let mut r = owned("\"");
                r.append(s.as_str());
                r.append("\"");
                r
            },
            OptionValue::List(v) => {
                let mut r = owned("[");
                let n = count_string(v.len());
                r.append(n.as_str());
                r.append(" items]");
                r
            },
            OptionValue::Attrs(m) => {
                let mut r = owned("{ ");
                let n = count_string(m.len());
                r.append(n.as_str());
                r.append(" attrs }");
                r
            },
            OptionValue::Null => owned("null (disabled)"),
        }
    }

    pub fn type_matches(&self, ty: &OptionType) -> (r: bool)
        ensures
            r == value_fits(*self, *ty),
        decreases ty,
    {
        match (self, ty) {
            (OptionValue::Bool(_), OptionType::Bool) => true,
            (OptionValue::Int(_), OptionType::Int { .. }) => true,
            (OptionValue::Float(_), OptionType::Float) => true,
            (OptionValue::Str(_), OptionType::Str) => true,
            (OptionValue::Str(_), OptionType::Path) => true,
            (OptionValue::Str(_), OptionType::Package) => true,
            (OptionValue::Str(_), OptionType::Enum { .. }) => true,
            (OptionValue::List(_), OptionType::List { .. }) => true,
            (OptionValue::Attrs(_), OptionType::Attrs { .. }) => true,
            (OptionValue::Null, OptionType::Nullable { .. }) => true,
            (_, OptionType::Nullable { inner }) => self.type_matches(inner),
            _ => false,
        }
    }
}

/// The last dot-separated segment of a name.
pub open spec fn last_segment(s: Seq<char>) -> Seq<char> {
    match find_last(s, '.') {
        Some(i) => s.subrange(i + 1, s.len() as int),
        None => s,
    }
}

/// Everything before the last dot of a name; empty where it has none.
pub open spec fn parent_path(s: Seq<char>) -> Seq<char> {
    match find_last(s, '.') {
        Some(i) => s.subrange(0, i),
        None => Seq::empty(),
    }
}

/// A dotted name is its parent path, a dot and its last segment; a name
/// without a dot is its own last segment, with an empty parent path.
pub proof fn law_name_is_parent_and_segment(s: Seq<char>)
    ensures
        s.contains('.') ==> parent_path(s) + "."@ + last_segment(s) == s,
        !s.contains('.') ==> last_segment(s) == s && parent_path(s).len() == 0,
        !last_segment(s).contains('.'),
{
    crate::text::lemma_last_before(s, '.', s.len() as int);
    reveal_strlit(".");
    match find_last(s, '.') {
        Some(i) => {
            assert(s.subrange(0, i) + "."@ + s.subrange(i + 1, s.len() as int) =~= s);
            let l = last_segment(s);
            if l.contains('.') {
                let j = choose|j: int| 0 <= j < l.len() && l[j] == '.';
                assert(s[i + 1 + j] == '.');
            }
        },
        None => {
            if s.contains('.') {
                let j = choose|j: int| 0 <= j < s.len() && s[j] == '.';
                assert(s[j] == '.');
            }
        },
    }
}

/// The last dot-separated segment of `s`.
pub fn last_segment_of(s: &str) -> (r: &str)
    ensures
        r@ == last_segment(s@),
{
    let cs = chars_of(s);
    proof { crate::text::lemma_last_before(s@, '.', s@.len() as int); }
    match find_last_char(&cs, '.') {
        Some(i) => s.substring_char(i + 1, cs.len()),
        None => s,
    }
}

impl View for NixOption {
    type V = OptionView;

    open spec fn view(&self) -> OptionView {
        option_view(*self)
    }
}

impl Clone for OptionValue {
    /// A copy with the same view.
    fn clone(&self) -> (r: Self)
        ensures
            r@ == self@,
    {
        self.duplicate()
    }
}

/// A copy of an option type with the same view.
pub fn duplicate_type(t: &OptionType) -> (r: OptionType)
    ensures
        r@ == t@,
    decreases t,
{
    match t {
        OptionType::Bool => OptionType::Bool,
        OptionType::Int { min, max } => OptionType::Int { min: *min, max: *max },
        OptionType::Float => OptionType::Float,
        OptionType::Str => OptionType::Str,
        OptionType::Path => OptionType::Path,
        OptionType::Package => OptionType::Package,
        OptionType::Enum { values } => {
            let mut out: Vec<String> = Vec::new();
            let mut i: usize = 0;
            while i < values.len()
                invariant
                    i <= values@.len(),
                    crate::text::views(out@) == crate::text::views(values@).take(i as int),
                decreases values@.len() - i,
            {
                let ghost prev = out@;
                let x = values[i].clone();
                out.push(x);
                assert(crate::text::views(out@) =~= crate::text::views(prev).push(values@[i as int]@));
                assert(crate::text::views(values@).take(i + 1) =~= crate::text::views(values@).take(i as int).push(values@[i as int]@));
                i += 1;
            }
            assert(crate::text::views(values@).take(values@.len() as int) =~= crate::text::views(values@));
            OptionType::Enum { values: out }
        },
        OptionType::List { element } => OptionType::List { element: Box::new(duplicate_type(element)) },
        OptionType::Attrs { element } => OptionType::Attrs { element: Box::new(duplicate_type(element)) },
        OptionType::Submodule { options } => {
            let mut out: StringMap<NixOption> = StringMap::new();
            let mut i: usize = 0;
            proof { use_type_invariant(options); }
            while i < options.len()
                invariant
                    *t is Submodule,
                    (*t)->Submodule_options == *options,
                    options.wf(),
                    i <= options@.len(),
                    out.keys() == options.keys().take(i as int),
                    out@.len() == i,
                    forall|j: int| 0 <= j < i ==> option_view(#[trigger] out@[j].1) == option_view(options@[j].1),
                decreases options@.len() - i,
            {
                let (k, o) = options.entry_at(i);
                proof {
                    options.lemma_value_decreases(i as int);
                    assert(decreases_to!(*t => (*t)->Submodule_options));
                    use_type_invariant(&out);
                    out.lemma_index_of(k@);
                    if out.index_of(k@) is Some {
                        let j = out.index_of(k@).unwrap();
                        assert(out.keys()[j] == options.keys()[j]);
                        assert(options.keys()[i as int] == k@);
                    }
                }
                let copy = duplicate_option(o);
                let ghost before = out@;
                out.insert(k.clone(), copy);
                assert(out@ == before.push((k@, copy)));
                assert(out.keys() =~= options.keys().take(i + 1));
                i += 1;
            }
            assert(options.keys().take(options@.len() as int) =~= options.keys());
            let r = OptionType::Submodule { options: out };
            proof {
                assert forall|j: int| 0 <= j < out@.len() implies #[trigger] out@[j].0 == options@[j].0 by {
                    assert(out.keys()[j] == options.keys()[j]);
                }
            }
            proof {
                let a = match type_view(r) {
                    TypeView::Submodule(x) => x,
                    _ => Seq::empty(),
                };
                let b = match type_view(*t) {
                    TypeView::Submodule(x) => x,
                    _ => Seq::empty(),
                };
                assert(a.len() == b.len());
                assert forall|j: int| 0 <= j < a.len() implies a[j] == b[j] by {
                    assert(out@[j].0 == options@[j].0);
                    assert(option_view(out@[j].1) == option_view(options@[j].1));
                }
                assert(a =~= b);
            }
            r
        },
        OptionType::Nullable { inner } => OptionType::Nullable { inner: Box::new(duplicate_type(inner)) },
        OptionType::Unknown { type_str } => OptionType::Unknown { type_str: type_str.clone() },
    }
}

/// A copy of an option with the same view.
pub fn duplicate_option(o: &NixOption) -> (r: NixOption)
    ensures
        r@ == o@,
    decreases o,
{
    NixOption {
        name: o.name.clone(),
        description: o.description.clone(),
        option_type: duplicate_type(&o.option_type),
        default: match &o.default {
            Some(v) => Some(v.duplicate()),
            None => None,
        },
        example: match &o.example {
            Some(v) => Some(v.duplicate()),
            None => None,
        },
        declared: o.declared,
        declared_in: match &o.declared_in {
            Some(s) => Some(s.clone()),
            None => None,
        },
    }
}

impl Clone for OptionType {
    /// A copy with the same view.
    fn clone(&self) -> (r: Self)
        ensures
            r@ == self@,
    {
        duplicate_type(self)
    }
}

impl Clone for NixOption {
    /// A copy with the same view.
    fn clone(&self) -> (r: Self)
        ensures
            r@ == self@,
    {
        duplicate_option(self)
    }
}

impl NixOption {
    /// Short label for display in the TUI list.
    pub fn short_name(&self) -> (r: &str)
        ensures
            r@ == last_segment(self.name@),
    {
        last_segment_of(self.name.as_str())
    }

    /// Category breadcrumb: everything but the last segment.
    pub fn category(&self) -> (r: String)
        ensures
            r@ == parent_path(self.name@),
    {
        let cs = chars_of(self.name.as_str());
        proof { crate::text::lemma_last_before(cs@, '.', cs@.len() as int); }
        match find_last_char(&cs, '.') {
            Some(i) => string_of(&cs, 0, i),
            None => String::new(),
        }
    }
}

} // verus!
