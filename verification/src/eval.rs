use vstd::prelude::*;

use crate::json::JsonValue;
use crate::option::{opt_text, opt_view, value_fits, FloatText, NixOption, OptionType, OptionValue, OptionView, TypeView, ValueView};
use crate::string_map::StringMap;
use crate::text::{concat, owned, same_text, trim_text, trimmed, views};

verus! {

/// The elements of `s` that are present, in order.
pub open spec fn present<A>(s: Seq<Option<A>>) -> Seq<A>
    decreases s.len(),
{
    if s.len() == 0 {
        Seq::empty()
    } else {
        let rest = present(s.drop_last());
        match s.last() {
            Some(x) => rest.push(x),
            None => rest,
        }
    }
}

/// The entries of `s` whose value is present, in order.
pub open spec fn present_entries<A>(s: Seq<(Seq<char>, Option<A>)>) -> Seq<(Seq<char>, A)>
    decreases s.len(),
{
    if s.len() == 0 {
        Seq::empty()
    } else {
        let rest = present_entries(s.drop_last());
        match s.last().1 {
            Some(x) => rest.push((s.last().0, x)),
            None => rest,
        }
    }
}

/// The keys of the entries that `present_entries` keeps come from `s`.
pub proof fn lemma_present_entries_keys<A>(s: Seq<(Seq<char>, Option<A>)>)
    ensures
        forall|j: int| 0 <= j < present_entries(s).len() ==>
            exists|t: int| 0 <= t < s.len() && #[trigger] present_entries(s)[j].0 == s[t].0,
    decreases s.len(),
{
    if s.len() > 0 {
        lemma_present_entries_keys(s.drop_last());
        let rest = present_entries(s.drop_last());
        assert forall|j: int| 0 <= j < present_entries(s).len() implies
            exists|t: int| 0 <= t < s.len() && #[trigger] present_entries(s)[j].0 == s[t].0 by {
            if j < rest.len() {
                let t = choose|t: int| 0 <= t < s.drop_last().len() && rest[j].0 == s.drop_last()[t].0;
                assert(s[t].0 == s.drop_last()[t].0);
            } else {
                assert(present_entries(s)[j].0 == s[s.len() - 1].0);
            }
        }
    }
}

/// The value that a JSON document stands for, where it stands for one: a number
/// is an integer where it fits in an `i64`, else a float; array elements and
/// object members that stand for nothing are left out.
pub open spec fn json_value_view(v: JsonValue) -> Option<ValueView>
    decreases v,
{
    match v {
        JsonValue::Bool(b) => Some(ValueView::Bool(b)),
        JsonValue::Number(n) => match n.as_i64 {
            Some(i) => Some(ValueView::Int(i)),
            None => match n.as_f64 {
                Some(f) => Some(ValueView::Float(f.plain@, f.fixed@, f.debug@)),
                None => None,
            },
        },
        JsonValue::String(s) => Some(ValueView::Str(s@)),
        JsonValue::Null => Some(ValueView::Null),
        JsonValue::Array(items) => {
            proof { broadcast use vstd::std_specs::vec::group_vec_axioms; assert(decreases_to!(items => items@)); }
            Some(ValueView::List(present(json_items_view(items@))))
        },
        JsonValue::Object(m) => Some(ValueView::Attrs(present_entries(json_members_view(m)))),
    }
}

/// What each element of an array stands for.
pub open spec fn json_items_view(items: Seq<JsonValue>) -> Seq<Option<ValueView>>
    decreases items,
{
    Seq::new(items.len(), |i: int| if 0 <= i < items.len() { json_value_view(items[i]) } else { None })
}

/// What each member of an object stands for.
pub open spec fn json_members_view(m: StringMap<JsonValue>) -> Seq<(Seq<char>, Option<ValueView>)>
    decreases m,
{
    Seq::new(m@.len(), |i: int| if 0 <= i < m@.len() {
        (m@[i].0, {
            proof { m.lemma_value_decreases(i); }
            json_value_view(m@[i].1)
        })
    } else {
        (Seq::empty(), None)
    })
}

/// Converts a JSON document into an option value (`None` for a number that is
/// neither an `i64` nor a float).
pub fn json_to_value(val: &JsonValue) -> (r: Option<OptionValue>)
    ensures
        opt_view(r) == json_value_view(*val),
    decreases val,
{
    match val {
        JsonValue::Bool(b) => Some(OptionValue::Bool(*b)),
        JsonValue::Number(n) => {
            if let Some(i) = n.as_i64 {
                Some(OptionValue::Int(i))
            } else {
                match &n.as_f64 {
                    Some(f) => Some(OptionValue::Float(FloatText { plain: f.plain.clone(), fixed: f.fixed.clone(), debug: f.debug.clone() })),
                    None => None,
                }
            }
        },
        JsonValue::String(s) => Some(OptionValue::Str(s.clone())),
        JsonValue::Null => Some(OptionValue::Null),
        JsonValue::Array(arr) => {
            let ghost src = json_items_view(arr@);
            let mut items: Vec<OptionValue> = Vec::new();
            let mut i: usize = 0;
            while i < arr.len()
                invariant
                    *val is Array,
                    (*val)->Array_0 == *arr,
                    src == json_items_view(arr@),
                    i <= arr@.len(),
                    items@.map_values(|x: OptionValue| x@) == present(src.take(i as int)),
                decreases arr@.len() - i,
            {
                proof {
                    broadcast use vstd::std_specs::vec::group_vec_axioms;
                    assert(decreases_to!(*val => (*val)->Array_0));
                    assert(decreases_to!(*arr => arr[i as int]));
                }
                let x = json_to_value(&arr[i]);
                let ghost prev = items@;
                assert(src.take(i + 1).drop_last() =~= src.take(i as int));
                match x {
                    Some(v) => {
                        items.push(v);
                        assert(items@.map_values(|x: OptionValue| x@) =~= prev.map_values(|x: OptionValue| x@).push(v@));
                    },
                    None => {},
                }
                i += 1;
            }
            assert(src.take(arr@.len() as int) =~= src);
            let r = OptionValue::List(items);
            assert(json_value_view(*val) == Some(ValueView::List(present(src))));
            assert(crate::option::values_view(items@) =~= items@.map_values(|x: OptionValue| x@));
            assert(r@ == ValueView::List(items@.map_values(|x: OptionValue| x@)));
            Some(r)
        },
        JsonValue::Object(obj) => {
            let ghost src = json_members_view(*obj);
            let mut map: StringMap<OptionValue> = StringMap::new();
            let mut i: usize = 0;
            proof { use_type_invariant(obj); }
            while i < obj.len()
                invariant
                    *val is Object,
                    (*val)->Object_0 == *obj,
                    obj.wf(),
                    src == json_members_view(*obj),
                    i <= obj@.len(),
                    map@.map_values(|e: (Seq<char>, OptionValue)| (e.0, e.1@)) == present_entries(src.take(i as int)),
                decreases obj@.len() - i,
            {
                let (k, child) = obj.entry_at(i);
                proof {
                    obj.lemma_value_decreases(i as int);
                    assert(decreases_to!(*val => (*val)->Object_0));
                }
                let x = json_to_value(child);
                let ghost prev = map@;
                assert(src.take(i + 1).drop_last() =~= src.take(i as int));
                match x {
                    Some(v) => {
                        proof {
                            use_type_invariant(&map);
                            map.lemma_index_of(k@);
                            lemma_present_entries_keys(src.take(i as int));
                            if map.index_of(k@) is Some {
                                let t = map.index_of(k@).unwrap();
                                assert(map@.map_values(|e: (Seq<char>, OptionValue)| (e.0, e.1@))[t].0 == map@[t].0);
                                let u = choose|u: int| 0 <= u < src.take(i as int).len() && present_entries(src.take(i as int))[t].0 == src.take(i as int)[u].0;
                                assert(obj.keys()[u] == obj.keys()[i as int]);
                            }
                        }
                        let ghost vv = v@;
                        map.insert(k.clone(), v);
                        assert(map@.map_values(|e: (Seq<char>, OptionValue)| (e.0, e.1@)) =~= prev.map_values(|e: (Seq<char>, OptionValue)| (e.0, e.1@)).push((k@, vv)));
                    },
                    None => {},
                }
                i += 1;
            }
            assert(src.take(obj@.len() as int) =~= src);
            let r = OptionValue::Attrs(map);
            assert(json_value_view(*val) == Some(ValueView::Attrs(present_entries(src))));
            assert(crate::option::entries_view(map) =~= map@.map_values(|e: (Seq<char>, OptionValue)| (e.0, e.1@)));
            assert(r@ == ValueView::Attrs(map@.map_values(|e: (Seq<char>, OptionValue)| (e.0, e.1@))));
            Some(r)
        },
    }
}


// ---------------------------------------------------------------------------
// Option types
// ---------------------------------------------------------------------------

/// The name under which a JSON type descriptor names its type: its `name`
/// member where it has one, else its `_type` member; `unknown` where that member
/// is missing or not a string.
pub open spec fn type_name_of(v: JsonValue) -> Seq<char> {
    let f = match v.field("name"@) {
        Some(x) => Some(x),
        None => v.field("_type"@),
    };
    match f {
        Some(x) => match x.text() {
            Some(t) => t,
            None => "unknown"@,
        },
        None => "unknown"@,
    }
}

/// The strings among the elements of an array.
pub open spec fn array_strings(a: Seq<JsonValue>) -> Seq<Seq<char>> {
    present(a.map_values(|x: JsonValue| x.text()))
}

/// The option type that a JSON type descriptor stands for.
pub open spec fn json_type_view(v: JsonValue) -> TypeView
    decreases v,
{
    let name = type_name_of(v);
    let elem = match v.field("elemType"@) {
        Some(e) => {
            proof { v.lemma_field_decreases("elemType"@); }
            json_type_view(e)
        },
        None => TypeView::Str,
    };
    if name == "bool"@ {
        TypeView::Bool
    } else if name == "int"@ || name == "positiveInt"@ || name == "unsignedInt"@ {
        TypeView::Int(None, None)
    } else if name == "float"@ || name == "number"@ {
        TypeView::Float
    } else if name == "str"@ || name == "singleLineStr"@ || name == "separatedString"@ {
        TypeView::Str
    } else if name == "path"@ {
        TypeView::Path
    } else if name == "package"@ {
        TypeView::Package
    } else if name == "enum"@ {
        TypeView::Enum(match v.field("values"@) {
            Some(JsonValue::Array(a)) => array_strings(a@),
            _ => Seq::empty(),
        })
    } else if name == "listOf"@ || name == "coercedTo"@ {
        TypeView::List(Box::new(elem))
    } else if name == "attrsOf"@ || name == "lazyAttrsOf"@ {
        TypeView::Attrs(Box::new(elem))
    } else if name == "nullOr"@ {
        TypeView::Nullable(Box::new(elem))
    } else {
        TypeView::Unknown(name)
    }
}

/// The type that the `elemType` member of a descriptor stands for: a string
/// where there is none.
pub open spec fn element_type_of(v: JsonValue) -> TypeView {
    match v.field("elemType"@) {
        Some(e) => json_type_view(e),
        None => TypeView::Str,
    }
}

/// What a type descriptor is read as, by the name of its type: `listOf` and
/// `coercedTo` are lists, `attrsOf` and `lazyAttrsOf` attribute sets, and
/// `nullOr` nullable types, each of its element type; the scalar names give
/// their scalar types.
pub proof fn law_type_kinds(v: JsonValue)
    ensures
        ({
            let name = type_name_of(v);
            let t = json_type_view(v);
            &&& (name == "listOf"@ || name == "coercedTo"@) ==> t == TypeView::List(Box::new(element_type_of(v)))
            &&& (name == "attrsOf"@ || name == "lazyAttrsOf"@) ==> t == TypeView::Attrs(Box::new(element_type_of(v)))
            &&& name == "nullOr"@ ==> t == TypeView::Nullable(Box::new(element_type_of(v)))
            &&& name == "bool"@ ==> t == TypeView::Bool
            &&& (name == "int"@ || name == "positiveInt"@ || name == "unsignedInt"@) ==> t == TypeView::Int(None, None)
            &&& (name == "float"@ || name == "number"@) ==> t == TypeView::Float
            &&& (name == "str"@ || name == "singleLineStr"@ || name == "separatedString"@) ==> t == TypeView::Str
            &&& name == "path"@ ==> t == TypeView::Path
            &&& name == "package"@ ==> t == TypeView::Package
            &&& name == "enum"@ ==> t is Enum
        }),
{
    reveal_strlit("bool");
    reveal_strlit("int");
    reveal_strlit("positiveInt");
    reveal_strlit("unsignedInt");
    reveal_strlit("float");
    reveal_strlit("number");
    reveal_strlit("str");
    reveal_strlit("singleLineStr");
    reveal_strlit("separatedString");
    reveal_strlit("path");
    reveal_strlit("package");
    reveal_strlit("enum");
    reveal_strlit("listOf");
    reveal_strlit("coercedTo");
    reveal_strlit("attrsOf");
    reveal_strlit("lazyAttrsOf");
    reveal_strlit("nullOr");
    assert("bool"@.len() == 4 && "bool"@[0] == 'b' && "bool"@[2] == 'o');
    assert("int"@.len() == 3 && "int"@[0] == 'i' && "int"@[2] == 't');
    assert("positiveInt"@.len() == 11 && "positiveInt"@[0] == 'p' && "positiveInt"@[2] == 's');
    assert("unsignedInt"@.len() == 11 && "unsignedInt"@[0] == 'u' && "unsignedInt"@[2] == 's');
    assert("float"@.len() == 5 && "float"@[0] == 'f' && "float"@[2] == 'o');
    assert("number"@.len() == 6 && "number"@[0] == 'n' && "number"@[2] == 'm');
    assert("str"@.len() == 3 && "str"@[0] == 's' && "str"@[2] == 'r');
    assert("singleLineStr"@.len() == 13 && "singleLineStr"@[0] == 's' && "singleLineStr"@[2] == 'n');
    assert("separatedString"@.len() == 15 && "separatedString"@[0] == 's' && "separatedString"@[2] == 'p');
    assert("path"@.len() == 4 && "path"@[0] == 'p' && "path"@[2] == 't');
    assert("package"@.len() == 7 && "package"@[0] == 'p' && "package"@[2] == 'c');
    assert("enum"@.len() == 4 && "enum"@[0] == 'e' && "enum"@[2] == 'u');
    assert("listOf"@.len() == 6 && "listOf"@[0] == 'l' && "listOf"@[2] == 's');
    assert("coercedTo"@.len() == 9 && "coercedTo"@[0] == 'c' && "coercedTo"@[2] == 'e');
    assert("attrsOf"@.len() == 7 && "attrsOf"@[0] == 'a' && "attrsOf"@[2] == 't');
    assert("lazyAttrsOf"@.len() == 11 && "lazyAttrsOf"@[0] == 'l' && "lazyAttrsOf"@[2] == 'z');
    assert("nullOr"@.len() == 6 && "nullOr"@[0] == 'n' && "nullOr"@[2] == 'l');
}

/// A type descriptor names its type by its `name` member where that is a
/// string, else, where it has no `name` member, by its `_type` member where
/// that is a string.
pub proof fn law_type_name(v: JsonValue)
    ensures
        match v.field("name"@) {
            Some(x) => match x.text() {
                Some(t) => type_name_of(v) == t,
                None => true,
            },
            None => match v.field("_type"@) {
                Some(x) => match x.text() {
                    Some(t) => type_name_of(v) == t,
                    None => true,
                },
                None => true,
            },
        },
{
}

/// What a JSON document is read as keeps its kind: a boolean, a string and
/// null stand for themselves, a number for an integer where it fits in an
/// `i64` (else for its float), an array for a list and an object for an
/// attribute set; an array whose elements all stand for values gives their
/// values, one per element, in order.
pub proof fn law_json_kinds(v: JsonValue)
    ensures
        v matches JsonValue::Bool(b) ==> json_value_view(v) == Some(ValueView::Bool(b)),
        v matches JsonValue::String(s) ==> json_value_view(v) == Some(ValueView::Str(s@)),
        v is Null ==> json_value_view(v) == Some(ValueView::Null),
        match v {
            JsonValue::Number(n) => match n.as_i64 {
                Some(i) => json_value_view(v) == Some(ValueView::Int(i)),
                None => true,
            },
            _ => true,
        },
        v is Array ==> json_value_view(v) matches Some(ValueView::List(_)),
        v is Object ==> json_value_view(v) matches Some(ValueView::Attrs(_)),
        v matches JsonValue::Array(items) ==> ((forall|i: int| 0 <= i < items@.len() ==> (#[trigger] json_value_view(items@[i])) is Some)
            ==> (json_value_view(v) matches Some(ValueView::List(l)) && l.len() == items@.len()
                && forall|i: int| 0 <= i < l.len() ==> Some(#[trigger] l[i]) == json_value_view(items@[i]))),
{
    if let JsonValue::Array(items) = v {
        if forall|i: int| 0 <= i < items@.len() ==> (#[trigger] json_value_view(items@[i])) is Some {
            let s = json_items_view(items@);
            assert forall|i: int| 0 <= i < s.len() implies (#[trigger] s[i]) is Some by {
                assert(s[i] == json_value_view(items@[i]));
            }
            lemma_present_all(s);
            assert forall|i: int| 0 <= i < s.len() implies Some(#[trigger] present(s)[i]) == json_value_view(items@[i]) by {
                assert(s[i] == json_value_view(items@[i]));
            }
        }
    }
}

/// Where every element is present, `present` keeps them all, in order.
proof fn lemma_present_all<A>(s: Seq<Option<A>>)
    requires
        forall|i: int| 0 <= i < s.len() ==> (#[trigger] s[i]) is Some,
    ensures
        present(s).len() == s.len(),
        forall|i: int| 0 <= i < s.len() ==> Some(#[trigger] present(s)[i]) == s[i],
    decreases s.len(),
{
    if s.len() > 0 {
        let d = s.drop_last();
        assert forall|i: int| 0 <= i < d.len() implies (#[trigger] d[i]) is Some by {
            assert(d[i] == s[i]);
        }
        lemma_present_all(d);
        assert(s[s.len() - 1] is Some);
        assert forall|i: int| 0 <= i < s.len() implies Some(#[trigger] present(s)[i]) == s[i] by {
            if i < d.len() {
                assert(d[i] == s[i]);
            }
        }
    }
}

/// The strings among the elements of `arr`, in order.
fn strings_in(arr: &Vec<JsonValue>) -> (r: Vec<String>)
    ensures
        views(r@) == array_strings(arr@),
{
    let ghost src = arr@.map_values(|x: JsonValue| x.text());
    let mut out: Vec<String> = Vec::new();
    let mut i: usize = 0;
    while i < arr.len()
        invariant
            src == arr@.map_values(|x: JsonValue| x.text()),
            i <= arr@.len(),
            views(out@) == present(src.take(i as int)),
        decreases arr@.len() - i,
    {
        let ghost prev = out@;
        assert(src.take(i + 1).drop_last() =~= src.take(i as int));
        match arr[i].as_str() {
            Some(t) => {
                out.push(owned(t));
                assert(views(out@) =~= views(prev).push(t@));
            },
            None => {},
        }
        i += 1;
    }
    assert(src.take(arr@.len() as int) =~= src);
    out
}

/// Converts a JSON type descriptor, as `nix eval` prints it for an option's
/// `type`, into an option type.
pub fn parse_type(val: &JsonValue) -> (r: OptionType)
    ensures
        r@ == json_type_view(*val),
    decreases val,
{
    let name_field = match val.get("name") {
        Some(x) => Some(x),
        None => val.get("_type"),
    };
    let name: &str = match name_field {
        Some(x) => match x.as_str() {
            Some(t) => t,
            None => "unknown",
        },
        None => "unknown",
    };
    assert(name@ == type_name_of(*val));
    if same_text(name, "bool") {
        OptionType::Bool
    } else if same_text(name, "int") || same_text(name, "positiveInt") || same_text(name, "unsignedInt") {
        OptionType::Int { min: None, max: None }
    } else if same_text(name, "float") || same_text(name, "number") {
        OptionType::Float
    } else if same_text(name, "str") || same_text(name, "singleLineStr") || same_text(name, "separatedString") {
        OptionType::Str
    } else if same_text(name, "path") {
        OptionType::Path
    } else if same_text(name, "package") {
        OptionType::Package
    } else if same_text(name, "enum") {
        let values = match val.get("values") {
            Some(x) => match x.as_array() {
                Some(arr) => strings_in(arr),
                None => Vec::new(),
            },
            None => Vec::new(),
        };
        proof {
            if !(val.field("values"@) matches Some(JsonValue::Array(_))) {
                assert(views(values@) =~= Seq::<Seq<char>>::empty());
            }
        }
        OptionType::Enum { values }
    } else if same_text(name, "listOf") || same_text(name, "coercedTo") {
        OptionType::List { element: Box::new(element_type(val)) }
    } else if same_text(name, "attrsOf") || same_text(name, "lazyAttrsOf") {
        OptionType::Attrs { element: Box::new(element_type(val)) }
    } else if same_text(name, "nullOr") {
        OptionType::Nullable { inner: Box::new(element_type(val)) }
    } else {
        OptionType::Unknown { type_str: owned(name) }
    }
}

/// The type of the elements of a list, attribute set or nullable descriptor:
/// its `elemType`, and `str` where it has none.
fn element_type(val: &JsonValue) -> (r: OptionType)
    ensures
        r@ == (match val.field("elemType"@) {
            Some(e) => json_type_view(e),
            None => TypeView::Str,
        }),
    decreases val, 0nat,
{
    match val.get("elemType") {
        Some(t) => {
            proof { val.lemma_field_decreases("elemType"@); }
            parse_type(t)
        },
        None => OptionType::Str,
    }
}


// ---------------------------------------------------------------------------
// The option tree
// ---------------------------------------------------------------------------

/// The characters of the string member `k` of `obj`, where it is one.
pub open spec fn member_text(obj: StringMap<JsonValue>, k: Seq<char>) -> Option<Seq<char>> {
    match obj.lookup(k) {
        Some(x) => x.text(),
        None => None,
    }
}

/// The option that an option leaf of the options JSON stands for.
pub open spec fn leaf_view(name: Seq<char>, obj: StringMap<JsonValue>) -> OptionView {
    OptionView {
        name: name,
        description: match member_text(obj, "description"@) {
            Some(t) => t,
            None => Seq::empty(),
        },
        option_type: match obj.lookup("type"@) {
            Some(t) => json_type_view(t),
            None => TypeView::Unknown("?"@),
        },
        default: match obj.lookup("default"@) {
            Some(d) => json_value_view(d),
            None => None,
        },
        example: match obj.lookup("example"@) {
            Some(d) => json_value_view(d),
            None => None,
        },
        declared: true,
        declared_in: match obj.lookup("declarations"@) {
            Some(JsonValue::Array(a)) => if a@.len() > 0 { a@[0].text() } else { None },
            _ => None,
        },
    }
}

/// An object of the options JSON is an option leaf: its `_type` is `option`.
pub open spec fn is_option_leaf(obj: StringMap<JsonValue>) -> bool {
    member_text(obj, "_type"@) == Some("option"@)
}

/// The dotted name of the child `key` under `prefix`.
pub open spec fn child_name(prefix: Seq<char>, key: Seq<char>) -> Seq<char> {
    if prefix.len() == 0 {
        key
    } else {
        prefix + "."@ + key
    }
}

/// The options found under `v`, named from `prefix`, in the order in which the
/// tree is walked.
pub open spec fn options_under(prefix: Seq<char>, v: JsonValue) -> Seq<OptionView>
    decreases v, 1nat,
{
    match v {
        JsonValue::Object(m) => if is_option_leaf(m) {
            seq![leaf_view(prefix, m)]
        } else {
            options_in_members(prefix, m, m@.len() as int)
        },
        _ => Seq::empty(),
    }
}

/// The options found under the first `n` members of `m`.
pub open spec fn options_in_members(prefix: Seq<char>, m: StringMap<JsonValue>, n: int) -> Seq<OptionView>
    decreases m, n,
{
    if n <= 0 || n > m@.len() {
        Seq::empty()
    } else {
        options_in_members(prefix, m, n - 1) + {
            proof { m.lemma_value_decreases(n - 1); }
            options_under(child_name(prefix, m@[n - 1].0), m@[n - 1].1)
        }
    }
}

/// The views of a sequence of options.
pub open spec fn option_views(v: Seq<NixOption>) -> Seq<OptionView> {
    v.map_values(|o: NixOption| o@)
}

/// Reads the option declared by an option leaf of the options JSON.
fn parse_option_leaf(name: &str, obj: &StringMap<JsonValue>) -> (r: Option<NixOption>)
    ensures
        r matches Some(o) && o@ == leaf_view(name@, *obj),
{
    let description = match obj.get("description") {
        Some(d) => match d.as_str() {
            Some(t) => owned(t),
            None => String::new(),
        },
        None => String::new(),
    };
    let option_type = match obj.get("type") {
        Some(t) => parse_type(t),
        None => OptionType::Unknown { type_str: owned("?") },
    };
    let default = match obj.get("default") {
        Some(d) => json_to_value(d),
        None => None,
    };
    let example = match obj.get("example") {
        Some(d) => json_to_value(d),
        None => None,
    };
    let declared_in = match obj.get("declarations") {
        Some(d) => match d.as_array() {
            Some(a) => if a.len() > 0 {
                match a[0].as_str() {
                    Some(t) => Some(owned(t)),
                    None => None,
                }
            } else {
                None
            },
            None => None,
        },
        None => None,
    };
    let o = NixOption {
        name: owned(name),
        description,
        option_type,
        default,
        example,
        declared: true,
        declared_in,
    };
    proof {
        assert(o@.description == leaf_view(name@, *obj).description);
        assert(o@.declared_in == leaf_view(name@, *obj).declared_in);
    }
    Some(o)
}

/// Drives `nix eval` to extract the NixOS option declarations for a given
/// flake or the system-installed nixpkgs.
pub struct NixEvaluator {
    /// Path to the `nix` binary.
    pub nix_bin: String,
}

impl NixEvaluator {
    pub fn new() -> (r: Self)
        ensures
            r.nix_bin@ == "nix"@,
    {
        NixEvaluator { nix_bin: owned("nix") }
    }

    /// The version that `nix --version` printed: its output, trimmed.
    pub fn version_of(output: &str) -> (r: String)
        ensures
            r@ == trimmed(output@),
    {
        trim_text(output)
    }

    /// The error that a failed `nix eval` is reported with.
    pub fn eval_failure(stderr: &str) -> (r: String)
        ensures
            r@ == "nix eval failed:\n"@ + stderr@,
    {
        concat("nix eval failed:\n", stderr)
    }

    /// The arguments of `nix eval` for `expr`.
    pub fn eval_args(expr: &str) -> (r: Vec<String>)
        ensures
            views(r@) == seq!["eval"@, "--json"@, "--expr"@, expr@],
    {
        let mut r: Vec<String> = Vec::new();
        r.push("eval".to_owned());
        r.push("--json".to_owned());
        r.push("--expr".to_owned());
        r.push(expr.to_owned());
        assert(views(r@) =~= seq!["eval"@, "--json"@, "--expr"@, expr@]);
        r
    }

    /// Walks the options JSON that `nix eval` printed and lists the options it
    /// declares.
    ///
    /// The NixOS options JSON has the shape:
    ///   { "services.openssh.enable": { "_type": "option", "type": {...}, ... }, ... }
    pub fn parse_options_json(&self, val: JsonValue) -> (r: Vec<NixOption>)
        ensures
            option_views(r@) == options_under(Seq::empty(), val),
    {
        let mut options: Vec<NixOption> = Vec::new();
        proof { reveal_strlit(""); }
        assert(""@ =~= Seq::<char>::empty());
        self.walk("", &val, &mut options);
        assert(option_views(options@) =~= options_under(Seq::empty(), val));
        options
    }

    /// Appends to `out` the options found under `val`, named from `prefix`.
    pub fn walk(&self, prefix: &str, val: &JsonValue, out: &mut Vec<NixOption>)
        ensures
            option_views(final(out)@) == option_views(old(out)@) + options_under(prefix@, *val),
        decreases val, 1nat,
    {
        let obj = match val.as_object() {
            Some(o) => o,
            None => {
                assert(option_views(out@) =~= option_views(out@) + options_under(prefix@, *val));
                return;
            },
        };
        let is_leaf = match obj.get("_type") {
            Some(t) => match t.as_str() {
                Some(s) => same_text(s, "option"),
                None => false,
            },
            None => false,
        };
        if is_leaf {
            match parse_option_leaf(prefix, obj) {
                Some(opt) => {
                    let ghost prev = out@;
                    out.push(opt);
                    assert(option_views(out@) =~= option_views(prev) + options_under(prefix@, *val));
                },
                None => {},
            }
            return;
        }
        let ghost base = option_views(out@);
        let mut i: usize = 0;
        while i < obj.len()
            invariant
                *val is Object,
                (*val)->Object_0 == *obj,
                !is_option_leaf(*obj),
                i <= obj@.len(),
                option_views(out@) == base + options_in_members(prefix@, *obj, i as int),
            decreases obj@.len() - i,
        {
            let (key, child) = obj.entry_at(i);
            let full = if prefix.unicode_len() == 0 {
                key.clone()
            } else {
                let mut f = owned(prefix);
                f.append(".");
                f.append(key.as_str());
                f
            };
            assert(full@ == child_name(prefix@, obj@[i as int].0));
            proof {
                obj.lemma_value_decreases(i as int);
                assert(decreases_to!(*val => (*val)->Object_0));
            }
            self.walk(full.as_str(), child, out);
            assert(option_views(out@) =~= base + options_in_members(prefix@, *obj, i + 1));
            i += 1;
        }
    }

    /// The Nix expression whose value is the option tree: the options of the
    /// first NixOS configuration of the flake at `flake_path`, or, with no flake,
    /// those of the bare nixpkgs.
    pub fn options_expr(flake_path: Option<&str>) -> (r: String)
        ensures
            r@ == (match flake_path {
                Some(p) => "(import "@ + p@ + "/flake.nix).nixosConfigurations.${builtins.head (builtins.attrNames (import "@ + p@
                    + "/flake.nix).nixosConfigurations)}.options"@,
                None => "(import <nixpkgs/nixos> { configuration = {}; }).options"@,
            }),
    {
        match flake_path {
            Some(p) => {
                let mut r = owned("(import ");
                r.append(p);
                r.append("/flake.nix).nixosConfigurations.${builtins.head (builtins.attrNames (import ");
                r.append(p);
                r.append("/flake.nix).nixosConfigurations)}.options");
                r
            },
            None => owned("(import <nixpkgs/nixos> { configuration = {}; }).options"),
        }
    }
}


/// An option of the built-in catalogue.
fn demo(
    name: &str,
    description: &str,
    option_type: OptionType,
    default: OptionValue,
    example: Option<OptionValue>,
    declared_in: Option<&str>,
) -> (r: NixOption)
    ensures
        r.name@ == name@,
        r.description@ == description@,
        r.option_type == option_type,
        r.default == Some(default),
        r.example == example,
        r.declared,
        opt_text(r.declared_in) == match declared_in {
            Some(s) => Some(s@),
            None => None::<Seq<char>>,
        },
{
    NixOption {
        name: name.to_owned(),
        description: description.to_owned(),
        option_type,
        default: Some(default),
        example,
        declared: true,
        declared_in: match declared_in {
            Some(s) => Some(s.to_owned()),
            None => None,
        },
    }
}

/// The built-in catalogue, every field of every option, in order.
pub open spec fn demo_catalogue() -> Seq<OptionView> {
    seq![
        OptionView {
            name: "boot.loader.grub.enable"@,
            description: "Whether to enable the GNU GRUB boot loader."@,
            option_type: TypeView::Bool,
            default: Some(ValueView::Bool(true)),
            example: Some(ValueView::Bool(true)),
            declared: true,
            declared_in: Some("nixos/modules/system/boot/loader/grub/grub.nix"@),
        },
        OptionView {
            name: "boot.loader.grub.device"@,
            description: "The device on which the GRUB boot loader will be installed. The special value nodev means that a GRUB boot menu will be generated, but GRUB itself will not actually be installed."@,
            option_type: TypeView::Str,
            default: Some(ValueView::Str("nodev"@)),
            example: Some(ValueView::Str("/dev/sda"@)),
            declared: true,
            declared_in: Some("nixos/modules/system/boot/loader/grub/grub.nix"@),
        },
        OptionView {
            name: "boot.loader.grub.efiSupport"@,
            description: "Whether GRUB should be built with EFI support. EFI support is only available for GRUB v2."@,
            option_type: TypeView::Bool,
            default: Some(ValueView::Bool(false)),
            example: Some(ValueView::Bool(true)),
            declared: true,
            declared_in: Some("nixos/modules/system/boot/loader/grub/grub.nix"@),
        },
        OptionView {
            name: "boot.loader.systemd-boot.enable"@,
            description: "Whether to enable the systemd-boot (formerly gummiboot) EFI boot manager."@,
            option_type: TypeView::Bool,
            default: Some(ValueView::Bool(false)),
            example: Some(ValueView::Bool(true)),
            declared: true,
            declared_in: Some("nixos/modules/system/boot/loader/systemd-boot/systemd-boot.nix"@),
        },
        OptionView {
            name: "boot.kernelPackages"@,
            description: "This option allows you to override the Linux kernel used by NixOS."@,
            option_type: TypeView::Package,
            default: Some(ValueView::Str("pkgs.linuxPackages"@)),
            example: Some(ValueView::Str("pkgs.linuxPackages_latest"@)),
            declared: true,
            declared_in: None,
        },
        OptionView {
            name: "networking.hostName"@,
            description: "The name of the machine. Leave it empty if you want to obtain it from a DHCP server (not recommended)."@,
            option_type: TypeView::Str,
            default: Some(ValueView::Str("nixos"@)),
            example: Some(ValueView::Str("myhostname"@)),
            declared: true,
            declared_in: Some("nixos/modules/config/networking.nix"@),
        },
        OptionView {
            name: "networking.networkmanager.enable"@,
            description: "Whether to use NetworkManager to obtain an IP address and other configuration for all network interfaces that are not manually configured."@,
            option_type: TypeView::Bool,
            default: Some(ValueView::Bool(false)),
            example: Some(ValueView::Bool(true)),
            declared: true,
            declared_in: None,
        },
        OptionView {
            name: "networking.firewall.enable"@,
            description: "Whether to enable the firewall. This is a simple stateful firewall that blocks connection attempts to unauthorised TCP or UDP ports on this machine."@,
            option_type: TypeView::Bool,
            default: Some(ValueView::Bool(true)),
            example: Some(ValueView::Bool(true)),
            declared: true,
            declared_in: None,
        },
        OptionView {
            name: "networking.firewall.allowedTCPPorts"@,
            description: "List of TCP ports on which incoming connections are accepted."@,
            option_type: TypeView::List(Box::new(TypeView::Int(Some(1i64), Some(65535i64)))),
            default: Some(ValueView::List(Seq::empty())),
            example: Some(ValueView::List(seq![ValueView::Int(22i64), ValueView::Int(80i64), ValueView::Int(443i64)])),
            declared: true,
            declared_in: None,
        },
        OptionView {
            name: "services.openssh.enable"@,
            description: "Whether to enable the OpenSSH secure shell daemon, which allows secure remote logins."@,
            option_type: TypeView::Bool,
            default: Some(ValueView::Bool(false)),
            example: Some(ValueView::Bool(true)),
            declared: true,
            declared_in: Some("nixos/modules/services/networking/ssh/sshd.nix"@),
        },
        OptionView {
            name: "services.openssh.permitRootLogin"@,
            description: "Whether the root user can login using ssh. Valid values are yes, without-password, forced-commands-only, prohibit-password, or no."@,
            option_type: TypeView::Enum(seq!["yes"@, "without-password"@, "forced-commands-only"@, "prohibit-password"@, "no"@]),
            default: Some(ValueView::Str("prohibit-password"@)),
            example: Some(ValueView::Str("no"@)),
            declared: true,
            declared_in: Some("nixos/modules/services/networking/ssh/sshd.nix"@),
        },
        OptionView {
            name: "services.openssh.ports"@,
            description: "Specifies on which ports the SSH daemon listens."@,
            option_type: TypeView::List(Box::new(TypeView::Int(Some(1i64), Some(65535i64)))),
            default: Some(ValueView::List(seq![ValueView::Int(22i64)])),
            example: None,
            declared: true,
            declared_in: None,
        },
        OptionView {
            name: "services.xserver.enable"@,
            description: "Whether to enable the X server."@,
            option_type: TypeView::Bool,
            default: Some(ValueView::Bool(false)),
            example: Some(ValueView::Bool(true)),
            declared: true,
            declared_in: None,
        },
        OptionView {
            name: "services.xserver.displayManager.gdm.enable"@,
            description: "Whether to enable GDM, the GNOME Display Manager."@,
            option_type: TypeView::Bool,
            default: Some(ValueView::Bool(false)),
            example: Some(ValueView::Bool(true)),
            declared: true,
            declared_in: None,
        },
        OptionView {
            name: "services.xserver.desktopManager.gnome.enable"@,
            description: "Enable the GNOME desktop environment."@,
            option_type: TypeView::Bool,
            default: Some(ValueView::Bool(false)),
            example: Some(ValueView::Bool(true)),
            declared: true,
            declared_in: None,
        },
        OptionView {
            name: "users.mutableUsers"@,
            description: "If set to true, you are free to add new users and groups to the system with the useradd and groupadd commands. On system activation, the existing contents of the /etc/passwd and /etc/group files will be merged with the contents generated from the users.users and users.groups options."@,
            option_type: TypeView::Bool,
            default: Some(ValueView::Bool(true)),
            example: None,
            declared: true,
            declared_in: None,
        },
        OptionView {
            name: "environment.systemPackages"@,
            description: "The set of packages that appear in /run/current-system/sw. These packages are automatically available to all users, and are automatically updated every time you rebuild the system configuration."@,
            option_type: TypeView::List(Box::new(TypeView::Package)),
            default: Some(ValueView::List(Seq::empty())),
            example: Some(ValueView::List(seq![ValueView::Str("pkgs.wget"@), ValueView::Str("pkgs.vim"@)])),
            declared: true,
            declared_in: None,
        },
        OptionView {
            name: "time.timeZone"@,
            description: "The time zone used when displaying times and dates. See https://en.wikipedia.org/wiki/List_of_tz_database_time_zones for a comprehensive list of possible values for this setting."@,
            option_type: TypeView::Nullable(Box::new(TypeView::Str)),
            default: Some(ValueView::Null),
            example: Some(ValueView::Str("America/New_York"@)),
            declared: true,
            declared_in: None,
        },
        OptionView {
            name: "i18n.defaultLocale"@,
            description: "The default locale. It determines the language for program messages, the format for dates and currency, and so on. It should be a string like \"de_DE.UTF-8\"."@,
            option_type: TypeView::Str,
            default: Some(ValueView::Str("en_US.UTF-8"@)),
            example: Some(ValueView::Str("nl_NL.UTF-8"@)),
            declared: true,
            declared_in: None,
        },
        OptionView {
            name: "nix.settings.experimental-features"@,
            description: "A list of experimental features to enable in Nix."@,
            option_type: TypeView::List(Box::new(TypeView::Str)),
            default: Some(ValueView::List(Seq::empty())),
            example: Some(ValueView::List(seq![ValueView::Str("nix-command"@), ValueView::Str("flakes"@)])),
            declared: true,
            declared_in: None,
        },
        OptionView {
            name: "nix.gc.automatic"@,
            description: "Automatically run the Nix garbage collector at a specific time."@,
            option_type: TypeView::Bool,
            default: Some(ValueView::Bool(false)),
            example: Some(ValueView::Bool(true)),
            declared: true,
            declared_in: None,
        },
        OptionView {
            name: "nix.gc.dates"@,
            description: "Specification (in the format described by systemd.time(7)) of the time at which the garbage collector will run. The default is weekly."@,
            option_type: TypeView::Str,
            default: Some(ValueView::Str("weekly"@)),
            example: Some(ValueView::Str("03:15"@)),
            declared: true,
            declared_in: None,
        },
    ]
}

/// The type of a list of port numbers.
fn port_list_type() -> (r: OptionType)
    ensures
        r@ == TypeView::List(Box::new(TypeView::Int(Some(1i64), Some(65535i64)))),
{
    let element = OptionType::Int { min: Some(1), max: Some(65535) };
    assert(element@ == TypeView::Int(Some(1i64), Some(65535i64)));
    OptionType::List { element: Box::new(element) }
}

/// An empty list as an option value.
fn empty_list() -> (r: OptionValue)
    ensures
        r@ == ValueView::List(Seq::empty()),
{
    let items: Vec<OptionValue> = Vec::new();
    let r = OptionValue::List(items);
    assert(crate::option::values_view(items@) =~= Seq::<ValueView>::empty());
    r
}

/// A list of integers as an option value.
fn int_list(ns: &[i64]) -> (r: OptionValue)
    ensures
        r@ == ValueView::List(ns@.map_values(|n: i64| ValueView::Int(n))),
{
    let mut items: Vec<OptionValue> = Vec::new();
    let mut i: usize = 0;
    while i < ns.len()
        invariant
            i <= ns@.len(),
            items@.map_values(|x: OptionValue| x@) == ns@.take(i as int).map_values(|n: i64| ValueView::Int(n)),
        decreases ns@.len() - i,
    {
        let ghost prev = items@;
        let x = OptionValue::Int(ns[i]);
        items.push(x);
        assert(items@ =~= prev.push(x));
        assert(items@.map_values(|x: OptionValue| x@) =~= prev.map_values(|x: OptionValue| x@).push(ValueView::Int(ns@[i as int])));
        assert(ns@.take(i + 1) =~= ns@.take(i as int).push(ns@[i as int]));
        assert(items@.map_values(|x: OptionValue| x@) =~= ns@.take(i + 1).map_values(|n: i64| ValueView::Int(n)));
        i += 1;
    }
    assert(ns@.take(ns@.len() as int) =~= ns@);
    let r = OptionValue::List(items);
    assert(crate::option::values_view(items@) =~= items@.map_values(|x: OptionValue| x@));
    r
}

/// A list of strings as an option value.
fn str_list(ss: &[&str]) -> (r: OptionValue)
    ensures
        r@ == ValueView::List(ss@.map_values(|s: &str| ValueView::Str(s@))),
{
    let mut items: Vec<OptionValue> = Vec::new();
    let mut i: usize = 0;
    while i < ss.len()
        invariant
            i <= ss@.len(),
            items@.map_values(|x: OptionValue| x@) == ss@.take(i as int).map_values(|s: &str| ValueView::Str(s@)),
        decreases ss@.len() - i,
    {
        let ghost prev = items@;
        let x = OptionValue::Str(ss[i].to_owned());
        items.push(x);
        assert(items@ =~= prev.push(x));
        assert(items@.map_values(|x: OptionValue| x@) =~= prev.map_values(|x: OptionValue| x@).push(ValueView::Str(ss@[i as int]@)));
        assert(ss@.take(i + 1) =~= ss@.take(i as int).push(ss@[i as int]));
        assert(items@.map_values(|x: OptionValue| x@) =~= ss@.take(i + 1).map_values(|s: &str| ValueView::Str(s@)));
        i += 1;
    }
    assert(ss@.take(ss@.len() as int) =~= ss@);
    let r = OptionValue::List(items);
    assert(crate::option::values_view(items@) =~= items@.map_values(|x: OptionValue| x@));
    r
}

/// Owned copies of string slices.
fn text_vec(ss: &[&str]) -> (r: Vec<String>)
    ensures
        views(r@) == ss@.map_values(|s: &str| s@),
{
    let mut out: Vec<String> = Vec::new();
    let mut i: usize = 0;
    while i < ss.len()
        invariant
            i <= ss@.len(),
            views(out@) == ss@.take(i as int).map_values(|s: &str| s@),
        decreases ss@.len() - i,
    {
        let ghost prev = out@;
        let x = ss[i].to_owned();
        out.push(x);
        assert(out@ =~= prev.push(x));
        assert(views(out@) =~= views(prev).push(ss@[i as int]@));
        assert(ss@.take(i + 1) =~= ss@.take(i as int).push(ss@[i as int]));
        assert(views(out@) =~= ss@.take(i + 1).map_values(|s: &str| s@));
        i += 1;
    }
    assert(ss@.take(ss@.len() as int) =~= ss@);
    out
}

/// A built-in catalogue of common options, used when `nix` is unavailable.
#[verifier::spinoff_prover]
#[verifier::rlimit(60)]
pub fn demo_options() -> (r: Vec<NixOption>)
    ensures
        option_views(r@) == demo_catalogue(),
        forall|i: int| 0 <= i < r@.len() ==> (#[trigger] r@[i]).declared
            && (r@[i].default matches Some(d) && value_fits(d, r@[i].option_type)),
{
    let mut v: Vec<NixOption> = Vec::new();
    v.push(demo(
        "boot.loader.grub.enable",
        "Whether to enable the GNU GRUB boot loader.",
        OptionType::Bool,
        OptionValue::Bool(true),
        Some(OptionValue::Bool(true)),
        Some("nixos/modules/system/boot/loader/grub/grub.nix"),
    ));
    assert(v@[0]@ == demo_catalogue()[0]);
    v.push(demo(
        "boot.loader.grub.device",
        "The device on which the GRUB boot loader will be installed. The special value nodev means that a GRUB boot menu will be generated, but GRUB itself will not actually be installed.",
        OptionType::Str,
        OptionValue::Str("nodev".to_owned()),
        Some(OptionValue::Str("/dev/sda".to_owned())),
        Some("nixos/modules/system/boot/loader/grub/grub.nix"),
    ));
    assert(v@[1]@ == demo_catalogue()[1]);
    v.push(demo(
        "boot.loader.grub.efiSupport",
        "Whether GRUB should be built with EFI support. EFI support is only available for GRUB v2.",
        OptionType::Bool,
        OptionValue::Bool(false),
        Some(OptionValue::Bool(true)),
        Some("nixos/modules/system/boot/loader/grub/grub.nix"),
    ));
    assert(v@[2]@ == demo_catalogue()[2]);
    v.push(demo(
        "boot.loader.systemd-boot.enable",
        "Whether to enable the systemd-boot (formerly gummiboot) EFI boot manager.",
        OptionType::Bool,
        OptionValue::Bool(false),
        Some(OptionValue::Bool(true)),
        Some("nixos/modules/system/boot/loader/systemd-boot/systemd-boot.nix"),
    ));
    assert(v@[3]@ == demo_catalogue()[3]);
    v.push(demo(
        "boot.kernelPackages",
        "This option allows you to override the Linux kernel used by NixOS.",
        OptionType::Package,
        OptionValue::Str("pkgs.linuxPackages".to_owned()),
        Some(OptionValue::Str("pkgs.linuxPackages_latest".to_owned())),
        None,
    ));
    assert(v@[4]@ == demo_catalogue()[4]);
    v.push(demo(
        "networking.hostName",
        "The name of the machine. Leave it empty if you want to obtain it from a DHCP server (not recommended).",
        OptionType::Str,
        OptionValue::Str("nixos".to_owned()),
        Some(OptionValue::Str("myhostname".to_owned())),
        Some("nixos/modules/config/networking.nix"),
    ));
    assert(v@[5]@ == demo_catalogue()[5]);
    v.push(demo(
        "networking.networkmanager.enable",
        "Whether to use NetworkManager to obtain an IP address and other configuration for all network interfaces that are not manually configured.",
        OptionType::Bool,
        OptionValue::Bool(false),
        Some(OptionValue::Bool(true)),
        None,
    ));
    assert(v@[6]@ == demo_catalogue()[6]);
    v.push(demo(
        "networking.firewall.enable",
        "Whether to enable the firewall. This is a simple stateful firewall that blocks connection attempts to unauthorised TCP or UDP ports on this machine.",
        OptionType::Bool,
        OptionValue::Bool(true),
        Some(OptionValue::Bool(true)),
        None,
    ));
    assert(v@[7]@ == demo_catalogue()[7]);
    let ports_arr = [22i64, 80, 443];
    assert(ports_arr@ =~= seq![22i64, 80, 443]);
    let ports = int_list(&ports_arr);
    assert(ports_arr@.map_values(|n: i64| ValueView::Int(n)) =~= seq![ValueView::Int(22i64), ValueView::Int(80i64), ValueView::Int(443i64)]);
    v.push(demo(
        "networking.firewall.allowedTCPPorts",
        "List of TCP ports on which incoming connections are accepted.",
        port_list_type(),
        empty_list(),
        Some(ports),
        None,
    ));
    assert(v@[8]@ == demo_catalogue()[8]);
    v.push(demo(
        "services.openssh.enable",
        "Whether to enable the OpenSSH secure shell daemon, which allows secure remote logins.",
        OptionType::Bool,
        OptionValue::Bool(false),
        Some(OptionValue::Bool(true)),
        Some("nixos/modules/services/networking/ssh/sshd.nix"),
    ));
    assert(v@[9]@ == demo_catalogue()[9]);
    let login_arr = ["yes", "without-password", "forced-commands-only", "prohibit-password", "no"];
    assert(login_arr@ =~= seq!["yes", "without-password", "forced-commands-only", "prohibit-password", "no"]);
    let logins = text_vec(&login_arr);
    assert(login_arr@.map_values(|s: &str| s@) =~= seq!["yes"@, "without-password"@, "forced-commands-only"@, "prohibit-password"@, "no"@]);
    v.push(demo(
        "services.openssh.permitRootLogin",
        "Whether the root user can login using ssh. Valid values are yes, without-password, forced-commands-only, prohibit-password, or no.",
        OptionType::Enum { values: logins },
        OptionValue::Str("prohibit-password".to_owned()),
        Some(OptionValue::Str("no".to_owned())),
        Some("nixos/modules/services/networking/ssh/sshd.nix"),
    ));
    assert(v@[10]@ == demo_catalogue()[10]);
    let ssh_arr = [22i64];
    assert(ssh_arr@.map_values(|n: i64| ValueView::Int(n)) =~= seq![ValueView::Int(22i64)]);
    v.push(demo(
        "services.openssh.ports",
        "Specifies on which ports the SSH daemon listens.",
        port_list_type(),
        int_list(&ssh_arr),
        None,
        None,
    ));
    assert(v@[11]@ == demo_catalogue()[11]);
    v.push(demo(
        "services.xserver.enable",
        "Whether to enable the X server.",
        OptionType::Bool,
        OptionValue::Bool(false),
        Some(OptionValue::Bool(true)),
        None,
    ));
    assert(v@[12]@ == demo_catalogue()[12]);
    v.push(demo(
        "services.xserver.displayManager.gdm.enable",
        "Whether to enable GDM, the GNOME Display Manager.",
        OptionType::Bool,
        OptionValue::Bool(false),
        Some(OptionValue::Bool(true)),
        None,
    ));
    assert(v@[13]@ == demo_catalogue()[13]);
    v.push(demo(
        "services.xserver.desktopManager.gnome.enable",
        "Enable the GNOME desktop environment.",
        OptionType::Bool,
        OptionValue::Bool(false),
        Some(OptionValue::Bool(true)),
        None,
    ));
    assert(v@[14]@ == demo_catalogue()[14]);
    v.push(demo(
        "users.mutableUsers",
        "If set to true, you are free to add new users and groups to the system with the useradd and groupadd commands. On system activation, the existing contents of the /etc/passwd and /etc/group files will be merged with the contents generated from the users.users and users.groups options.",
        OptionType::Bool,
        OptionValue::Bool(true),
        None,
        None,
    ));
    assert(v@[15]@ == demo_catalogue()[15]);
    let pkg_arr = ["pkgs.wget", "pkgs.vim"];
    assert(pkg_arr@.map_values(|s: &str| ValueView::Str(s@)) =~= seq![ValueView::Str("pkgs.wget"@), ValueView::Str("pkgs.vim"@)]);
    v.push(demo(
        "environment.systemPackages",
        "The set of packages that appear in /run/current-system/sw. These packages are automatically available to all users, and are automatically updated every time you rebuild the system configuration.",
        OptionType::List { element: Box::new(OptionType::Package) },
        empty_list(),
        Some(str_list(&pkg_arr)),
        None,
    ));
    assert(v@[16]@ == demo_catalogue()[16]);
    v.push(demo(
        "time.timeZone",
        "The time zone used when displaying times and dates. See https://en.wikipedia.org/wiki/List_of_tz_database_time_zones for a comprehensive list of possible values for this setting.",
        OptionType::Nullable { inner: Box::new(OptionType::Str) },
        OptionValue::Null,
        Some(OptionValue::Str("America/New_York".to_owned())),
        None,
    ));
    assert(v@[17]@ == demo_catalogue()[17]);
    v.push(demo(
        "i18n.defaultLocale",
        "The default locale. It determines the language for program messages, the format for dates and currency, and so on. It should be a string like \"de_DE.UTF-8\".",
        OptionType::Str,
        OptionValue::Str("en_US.UTF-8".to_owned()),
        Some(OptionValue::Str("nl_NL.UTF-8".to_owned())),
        None,
    ));
    assert(v@[18]@ == demo_catalogue()[18]);
    let feature_arr = ["nix-command", "flakes"];
    assert(feature_arr@.map_values(|s: &str| ValueView::Str(s@)) =~= seq![ValueView::Str("nix-command"@), ValueView::Str("flakes"@)]);
    v.push(demo(
        "nix.settings.experimental-features",
        "A list of experimental features to enable in Nix.",
        OptionType::List { element: Box::new(OptionType::Str) },
        empty_list(),
        Some(str_list(&feature_arr)),
        None,
    ));
    assert(v@[19]@ == demo_catalogue()[19]);
    v.push(demo(
        "nix.gc.automatic",
        "Automatically run the Nix garbage collector at a specific time.",
        OptionType::Bool,
        OptionValue::Bool(false),
        Some(OptionValue::Bool(true)),
        None,
    ));
    assert(v@[20]@ == demo_catalogue()[20]);
    v.push(demo(
        "nix.gc.dates",
        "Specification (in the format described by systemd.time(7)) of the time at which the garbage collector will run. The default is weekly.",
        OptionType::Str,
        OptionValue::Str("weekly".to_owned()),
        Some(OptionValue::Str("03:15".to_owned())),
        None,
    ));
    assert(v@[21]@ == demo_catalogue()[21]);
    assert(option_views(v@) =~= demo_catalogue());
    v
}

} // verus!
