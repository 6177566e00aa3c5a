//! The input, filter and sort types a schema generates for an object type:
//! which fields each has and of which type. Scalars and enums are taken as
//! values (an enum is filtered like a string), other types through their
//! own `Input` and `Filter` types; `ID` fields are set by the database and
//! take no input. Custom scalars come from the scalar registry, given here
//! with the filter type each uses.
use vstd::prelude::*;
use crate::engine::sdl::{field_type_name, is_scalar_name, is_skipped_type, type_name_of, SdlField, SdlKind, SdlType, SdlTypeDef};
use crate::render::same_text;

verus! {

/// A field of a generated input type: its name, the type it takes and
/// whether it takes a list of them.
pub type InputFieldView = (Seq<char>, Seq<char>, bool);

/// Whether `t` is an enum the schema defines.
pub open spec fn is_enum_type(defs: Seq<SdlTypeDef>, t: Seq<char>) -> bool {
    exists|i: int| 0 <= i < defs.len() && #[trigger] defs[i].name@ == t && defs[i].kind is Enum && !is_skipped_type(t)
}

/// The filter type of a registered custom scalar named `t`.
pub open spec fn custom_scalar(scalars: Seq<(String, String)>, t: Seq<char>) -> Option<Seq<char>>
    decreases scalars.len(),
{
    if scalars.len() == 0 {
        None
    } else if scalars[0].0@ == t {
        Some(scalars[0].1@)
    } else {
        custom_scalar(scalars.drop_first(), t)
    }
}

/// A field of type `t` holds values rather than links.
pub open spec fn holds_values(defs: Seq<SdlTypeDef>, scalars: Seq<(String, String)>, t: Seq<char>) -> bool {
    is_scalar_name(t) || custom_scalar(scalars, t) is Some || is_enum_type(defs, t)
}

/// The type a field of type `t` takes in the generated input type; none for
/// `ID` fields.
pub open spec fn input_type(defs: Seq<SdlTypeDef>, scalars: Seq<(String, String)>, t: Seq<char>) -> Option<Seq<char>> {
    if holds_values(defs, scalars, t) {
        if t == "ID"@ {
            None
        } else if t == "String"@ || t == "Int"@ || t == "Boolean"@ || t == "Float"@ || t == "Int64"@ || t == "DateTime"@ {
            Some(t)
        } else if t == "GeoPoint"@ {
            Some("GeoPointInput"@)
        } else if custom_scalar(scalars, t) is Some || is_enum_type(defs, t) {
            Some(t)
        } else {
            Some(t + "Input"@)
        }
    } else {
        Some(t + "Input"@)
    }
}

/// The type a field of type `t` is filtered with; none for `ID` fields.
pub open spec fn filter_type(defs: Seq<SdlTypeDef>, scalars: Seq<(String, String)>, t: Seq<char>) -> Option<Seq<char>> {
    if holds_values(defs, scalars, t) {
        if t == "ID"@ {
            None
        } else {
            match custom_scalar(scalars, t) {
                Some(f) => Some(f),
                None => if is_enum_type(defs, t) { Some("StringFilter"@) } else { Some(t + "Filter"@) },
            }
        }
    } else {
        Some(t + "Filter"@)
    }
}

/// The generated input, filter and sort fields of an object type's fields:
/// the input starts with `uid` and `id`; each field then adds what its type
/// takes; the filter ends with `and`, `or` and `not` over the type's own
/// filter; the sort lists the value fields other than `ID` ones.
pub struct InputShapeView {
    pub input: Seq<InputFieldView>,
    pub filter: Seq<InputFieldView>,
    pub sort: Seq<Seq<char>>,
}

/// What the first `fs` fields add to the input, filter and sort fields.
pub open spec fn field_inputs(defs: Seq<SdlTypeDef>, scalars: Seq<(String, String)>, fs: Seq<SdlField>) -> InputShapeView
    decreases fs.len(),
{
    if fs.len() == 0 {
        InputShapeView { input: Seq::empty(), filter: Seq::empty(), sort: Seq::empty() }
    } else {
        let prev = field_inputs(defs, scalars, fs.drop_last());
        let f = fs.last();
        let t = type_name_of(f.ty);
        let list = f.ty is List;
        InputShapeView {
            input: match input_type(defs, scalars, t) {
                Some(it) => prev.input.push((f.name@, it, list)),
                None => prev.input,
            },
            filter: match filter_type(defs, scalars, t) {
                Some(ft) => prev.filter.push((f.name@, ft, false)),
                None => prev.filter,
            },
            sort: if holds_values(defs, scalars, t) && t != "ID"@ { prev.sort.push(f.name@) } else { prev.sort },
        }
    }
}

/// The generated input, filter and sort fields of object type `owner`.
pub open spec fn input_shape(defs: Seq<SdlTypeDef>, scalars: Seq<(String, String)>, owner: Seq<char>, fs: Seq<SdlField>) -> InputShapeView {
    let body = field_inputs(defs, scalars, fs);
    let own_filter = owner + "Filter"@;
    InputShapeView {
        input: seq![("uid"@, "ID"@, false), ("id"@, "ID"@, false)] + body.input,
        filter: body.filter + seq![("and"@, own_filter, true), ("or"@, own_filter, true), ("not"@, own_filter, false)],
        sort: body.sort,
    }
}

/// A generated input field: name, type and list flag.
#[derive(Debug, Clone, PartialEq, Eq)]
pub struct InputField {
    pub name: String,
    pub type_label: String,
    pub list: bool,
}

/// The generated input, filter and sort fields of an object type.
#[derive(Debug, Clone, PartialEq, Eq)]
pub struct InputShape {
    pub input: Vec<InputField>,
    pub filter: Vec<InputField>,
    pub sort: Vec<String>,
}

pub open spec fn input_field_view(f: InputField) -> InputFieldView {
    (f.name@, f.type_label@, f.list)
}

pub open spec fn input_fields_view(v: Seq<InputField>) -> Seq<InputFieldView> {
    v.map_values(|f: InputField| input_field_view(f))
}

pub open spec fn shape_view(s: InputShape) -> InputShapeView {
    InputShapeView {
        input: input_fields_view(s.input@),
        filter: input_fields_view(s.filter@),
        sort: s.sort@.map_values(|n: String| n@),
    }
}

fn scalar_name(t: &str) -> (b: bool)
    ensures
        b == is_scalar_name(t@),
{
    same_text(t, "String") || same_text(t, "Int") || same_text(t, "Boolean") || same_text(t, "ID") || same_text(t, "Float")
        || same_text(t, "Int64") || same_text(t, "DateTime") || same_text(t, "GeoPoint") || same_text(t, "Polygon")
        || same_text(t, "MultiPolygon")
}

fn skipped(name: &str) -> (b: bool)
    ensures
        b == is_skipped_type(name@),
{
    proof {
        reveal_strlit("__");
    }
    same_text(name, "Query") || same_text(name, "Mutation") || same_text(name, "Subscription")
        || crate::launch::has_prefix(name, "__")
}

/// Whether the schema defines an enum named `t` (see [`is_enum_type`]).
fn enum_defined(defs: &Vec<SdlTypeDef>, t: &str) -> (b: bool)
    ensures
        b == is_enum_type(defs@, t@),
{
    if skipped(t) {
        return false;
    }
    let mut i: usize = 0;
    while i < defs.len()
        invariant
            i <= defs@.len(),
            !is_skipped_type(t@),
            forall|j: int| 0 <= j < i ==> !(#[trigger] defs@[j].name@ == t@ && defs@[j].kind is Enum),
        decreases defs@.len() - i,
    {
        if same_text(defs[i].name.as_str(), t) {
            match &defs[i].kind {
                SdlKind::Enum(_) => {
                    return true;
                },
                _ => {},
            }
        }
        i = i + 1;
    }
    false
}

/// The filter type of a registered custom scalar (see [`custom_scalar`]).
fn find_custom<'a>(scalars: &'a Vec<(String, String)>, t: &str) -> (r: Option<&'a String>)
    ensures
        match r {
            Some(f) => custom_scalar(scalars@, t@) == Some(f@),
            None => custom_scalar(scalars@, t@) is None,
        },
{
    let mut i: usize = 0;
    proof {
        assert(scalars@.skip(0) =~= scalars@);
    }
    while i < scalars.len()
        invariant
            i <= scalars@.len(),
            custom_scalar(scalars@, t@) == custom_scalar(scalars@.skip(i as int), t@),
        decreases scalars@.len() - i,
    {
        proof {
            assert(scalars@.skip(i as int).drop_first() =~= scalars@.skip(i as int + 1));
            assert(scalars@.skip(i as int)[0] == scalars@[i as int]);
        }
        if same_text(scalars[i].0.as_str(), t) {
            return Some(&scalars[i].1);
        }
        i = i + 1;
    }
    None
}

fn suffixed(t: &str, suffix: &str) -> (r: String)
    ensures
        r@ == t@ + suffix@,
{
    let mut r = String::from_str(t);
    r.append(suffix);
    r
}

/// The input type of a field of type `t` (see [`input_type`]).
pub fn input_type_of(defs: &Vec<SdlTypeDef>, scalars: &Vec<(String, String)>, t: &str) -> (r: Option<String>)
    ensures
        match input_type(defs@, scalars@, t@) {
            Some(x) => r matches Some(s) && s@ == x,
            None => r is None,
        },
{
    let custom = find_custom(scalars, t).is_some();
    let is_enum = enum_defined(defs, t);
    if scalar_name(t) || custom || is_enum {
        if same_text(t, "ID") {
            None
        } else if same_text(t, "String") || same_text(t, "Int") || same_text(t, "Boolean") || same_text(t, "Float")
            || same_text(t, "Int64") || same_text(t, "DateTime") {
            Some(String::from_str(t))
        } else if same_text(t, "GeoPoint") {
            Some(String::from_str("GeoPointInput"))
        } else if custom || is_enum {
            Some(String::from_str(t))
        } else {
            Some(suffixed(t, "Input"))
        }
    } else {
        Some(suffixed(t, "Input"))
    }
}

/// The filter type of a field of type `t` (see [`filter_type`]).
pub fn filter_type_of(defs: &Vec<SdlTypeDef>, scalars: &Vec<(String, String)>, t: &str) -> (r: Option<String>)
    ensures
        match filter_type(defs@, scalars@, t@) {
            Some(x) => r matches Some(s) && s@ == x,
            None => r is None,
        },
{
    let custom = find_custom(scalars, t);
    let is_enum = enum_defined(defs, t);
    if scalar_name(t) || custom.is_some() || is_enum {
        if same_text(t, "ID") {
            None
        } else {
            match custom {
                Some(f) => Some(f.clone()),
                None => if is_enum {
                    Some(String::from_str("StringFilter"))
                } else {
                    Some(suffixed(t, "Filter"))
                },
            }
        }
    } else {
        Some(suffixed(t, "Filter"))
    }
}

fn field_of(name: &str, type_label: String, list: bool) -> (f: InputField)
    ensures
        input_field_view(f) == (name@, type_label@, list),
{
    InputField { name: name.to_owned(), type_label, list }
}

/// The input, filter and sort fields generated for object type `owner`
/// (see [`input_shape`]).
pub fn input_shape_of(defs: &Vec<SdlTypeDef>, scalars: &Vec<(String, String)>, owner: &str, fields: &Vec<SdlField>) -> (r: InputShape)
    ensures
        shape_view(r) == input_shape(defs@, scalars@, owner@, fields@),
{
    let mut input: Vec<InputField> = Vec::new();
    let mut filter: Vec<InputField> = Vec::new();
    let mut sort: Vec<String> = Vec::new();
    input.push(field_of("uid", String::from_str("ID"), false));
    input.push(field_of("id", String::from_str("ID"), false));
    let ghost head = input_fields_view(input@);
    proof {
        assert(head =~= seq![("uid"@, "ID"@, false), ("id"@, "ID"@, false)]);
        assert(fields@.take(0) =~= Seq::<SdlField>::empty());
        assert(input_fields_view(filter@) =~= Seq::<InputFieldView>::empty());
        assert(sort@.map_values(|n: String| n@) =~= Seq::<Seq<char>>::empty());
        assert(input_fields_view(input@) =~= head + Seq::<InputFieldView>::empty());
    }
    let mut i: usize = 0;
    while i < fields.len()
        invariant
            i <= fields@.len(),
            input_fields_view(input@) == head + field_inputs(defs@, scalars@, fields@.take(i as int)).input,
            input_fields_view(filter@) == field_inputs(defs@, scalars@, fields@.take(i as int)).filter,
            sort@.map_values(|n: String| n@) == field_inputs(defs@, scalars@, fields@.take(i as int)).sort,
        decreases fields@.len() - i,
    {
        let ghost t = fields@.take(i as int + 1);
        proof {
            assert(t.drop_last() =~= fields@.take(i as int));
            assert(t.last() == fields@[i as int]);
        }
        let f = &fields[i];
        let ty = field_type_name(&f.ty);
        let list = match &f.ty {
            SdlType::List(_) => true,
            SdlType::Named(_) => false,
        };
        let ghost pi = input@;
        let ghost pf = filter@;
        let ghost ps = sort@;
        match input_type_of(defs, scalars, ty.as_str()) {
            Some(it) => {
                input.push(field_of(f.name.as_str(), it, list));
            },
            None => {},
        }
        match filter_type_of(defs, scalars, ty.as_str()) {
            Some(ft) => {
                filter.push(field_of(f.name.as_str(), ft, false));
            },
            None => {},
        }
        let values = scalar_name(ty.as_str()) || find_custom(scalars, ty.as_str()).is_some() || enum_defined(defs, ty.as_str());
        if values && !same_text(ty.as_str(), "ID") {
            sort.push(f.name.clone());
        }
        proof {
            let prev = field_inputs(defs@, scalars@, fields@.take(i as int));
            let next = field_inputs(defs@, scalars@, t);
            assert(input_fields_view(input@) =~= head + next.input) by {
                if input@.len() > pi.len() {
                    assert(input_fields_view(input@) =~= input_fields_view(pi).push(input_field_view(input@.last())));
                } else {
                    assert(input@ =~= pi);
                }
            }
            assert(input_fields_view(filter@) =~= next.filter) by {
                if filter@.len() > pf.len() {
                    assert(input_fields_view(filter@) =~= input_fields_view(pf).push(input_field_view(filter@.last())));
                } else {
                    assert(filter@ =~= pf);
                }
            }
            assert(sort@.map_values(|n: String| n@) =~= next.sort) by {
                if sort@.len() > ps.len() {
                    assert(sort@ =~= ps.push(f.name));
                } else {
                    assert(sort@ =~= ps);
                }
            }
        }
        i = i + 1;
    }
    proof {
        assert(fields@.take(fields@.len() as int) =~= fields@);
    }
    let own = suffixed(owner, "Filter");
    let ghost body_filter = input_fields_view(filter@);
    filter.push(field_of("and", own.clone(), true));
    filter.push(field_of("or", own.clone(), true));
    filter.push(field_of("not", own, false));
    proof {
        assert(input_fields_view(filter@) =~= body_filter + seq![
            ("and"@, owner@ + "Filter"@, true),
            ("or"@, owner@ + "Filter"@, true),
            ("not"@, owner@ + "Filter"@, false),
        ]);
    }
    InputShape { input, filter, sort }
}

/// An argument of a generated root field: name, type, list flag and
/// whether it is required.
pub type ArgView = (Seq<char>, Seq<char>, bool, bool);

/// A generated root field: name, result type, whether it returns a list,
/// and its arguments in order.
pub struct RootFieldView {
    pub name: Seq<char>,
    pub returns: Seq<char>,
    pub returns_list: bool,
    pub args: Seq<ArgView>,
}

/// The arguments of `get<T>`: `uid` and `id`, then each unique field as a
/// string.
pub open spec fn get_args(uniques: Seq<Seq<char>>) -> Seq<ArgView> {
    seq![("uid"@, "ID"@, false, false), ("id"@, "ID"@, false, false)] + uniques.map_values(
        |u: Seq<char>| (u, "String"@, false, false),
    )
}

/// The root fields an object type `owner` gets: `query<T>` (filter, sort,
/// first, offset, after, and `nearVector` when the type has a vector
/// field), `get<T>`, `create<T>`, `update<T>` and `delete<T>`.
pub open spec fn root_fields(owner: Seq<char>, uniques: Seq<Seq<char>>, has_vector: bool) -> Seq<RootFieldView> {
    let list_args = seq![
        ("filter"@, owner + "Filter"@, false, false),
        ("sort"@, owner + "Sort"@, false, false),
        ("first"@, "Int"@, false, false),
        ("offset"@, "Int"@, false, false),
        ("after"@, "String"@, false, false),
    ];
    seq![
        RootFieldView {
            name: "query"@ + owner,
            returns: owner,
            returns_list: true,
            args: if has_vector { list_args.push(("nearVector"@, "Float"@, true, false)) } else { list_args },
        },
        RootFieldView { name: "get"@ + owner, returns: owner, returns_list: false, args: get_args(uniques) },
        RootFieldView {
            name: "create"@ + owner,
            returns: owner,
            returns_list: false,
            args: seq![("input"@, owner + "Input"@, false, true)],
        },
        RootFieldView {
            name: "update"@ + owner,
            returns: "Boolean"@,
            returns_list: false,
            args: seq![("uid"@, "ID"@, false, true), ("input"@, owner + "Input"@, false, true)],
        },
        RootFieldView {
            name: "delete"@ + owner,
            returns: "Boolean"@,
            returns_list: false,
            args: seq![("uid"@, "ID"@, false, true)],
        },
    ]
}

/// A generated root field argument.
#[derive(Debug, Clone, PartialEq, Eq)]
pub struct Argument {
    pub name: String,
    pub type_label: String,
    pub list: bool,
    pub required: bool,
}

/// A generated root field.
#[derive(Debug, Clone, PartialEq, Eq)]
pub struct RootField {
    pub name: String,
    pub returns: String,
    pub returns_list: bool,
    pub args: Vec<Argument>,
}

pub open spec fn arg_view(a: Argument) -> ArgView {
    (a.name@, a.type_label@, a.list, a.required)
}

pub open spec fn args_view(v: Seq<Argument>) -> Seq<ArgView> {
    v.map_values(|a: Argument| arg_view(a))
}

pub open spec fn root_field_view(f: RootField) -> RootFieldView {
    RootFieldView { name: f.name@, returns: f.returns@, returns_list: f.returns_list, args: args_view(f.args@) }
}

fn argument(name: &str, type_label: String, list: bool, required: bool) -> (a: Argument)
    ensures
        arg_view(a) == (name@, type_label@, list, required),
{
    Argument { name: name.to_owned(), type_label, list, required }
}

fn prefixed(prefix: &str, t: &str) -> (r: String)
    ensures
        r@ == prefix@ + t@,
{
    let mut r = String::from_str(prefix);
    r.append(t);
    r
}

/// The root fields of object type `owner` (see [`root_fields`]).
pub fn root_fields_of(owner: &str, uniques: &Vec<String>, has_vector: bool) -> (r: Vec<RootField>)
    ensures
        r@.map_values(|f: RootField| root_field_view(f)) == root_fields(owner@, uniques@.map_values(|u: String| u@), has_vector),
{
    let mut list_args: Vec<Argument> = Vec::new();
    list_args.push(argument("filter", suffixed(owner, "Filter"), false, false));
    list_args.push(argument("sort", suffixed(owner, "Sort"), false, false));
    list_args.push(argument("first", String::from_str("Int"), false, false));
    list_args.push(argument("offset", String::from_str("Int"), false, false));
    list_args.push(argument("after", String::from_str("String"), false, false));
    if has_vector {
        list_args.push(argument("nearVector", String::from_str("Float"), true, false));
    }
    let mut get_args_v: Vec<Argument> = Vec::new();
    get_args_v.push(argument("uid", String::from_str("ID"), false, false));
    get_args_v.push(argument("id", String::from_str("ID"), false, false));
    let ghost head = args_view(get_args_v@);
    let mut i: usize = 0;
    while i < uniques.len()
        invariant
            i <= uniques@.len(),
            head == seq![("uid"@, "ID"@, false, false), ("id"@, "ID"@, false, false)],
            args_view(get_args_v@) == head + uniques@.take(i as int).map_values(|u: String| u@).map_values(
                |u: Seq<char>| (u, "String"@, false, false),
            ),
        decreases uniques@.len() - i,
    {
        let ghost prev = get_args_v@;
        get_args_v.push(argument(uniques[i].as_str(), String::from_str("String"), false, false));
        proof {
            assert(args_view(get_args_v@) =~= args_view(prev).push((uniques@[i as int]@, "String"@, false, false)));
            assert(uniques@.take(i as int + 1).map_values(|u: String| u@).map_values(|u: Seq<char>| (u, "String"@, false, false))
                =~= uniques@.take(i as int).map_values(|u: String| u@).map_values(|u: Seq<char>| (u, "String"@, false, false)).push(
                (uniques@[i as int]@, "String"@, false, false),
            ));
        }
        i = i + 1;
    }
    proof {
        assert(uniques@.take(uniques@.len() as int) =~= uniques@);
    }
    let mut create_args: Vec<Argument> = Vec::new();
    create_args.push(argument("input", suffixed(owner, "Input"), false, true));
    let mut update_args: Vec<Argument> = Vec::new();
    update_args.push(argument("uid", String::from_str("ID"), false, true));
    update_args.push(argument("input", suffixed(owner, "Input"), false, true));
    let mut delete_args: Vec<Argument> = Vec::new();
    delete_args.push(argument("uid", String::from_str("ID"), false, true));
    let mut out: Vec<RootField> = Vec::new();
    out.push(RootField { name: prefixed("query", owner), returns: owner.to_owned(), returns_list: true, args: list_args });
    out.push(RootField { name: prefixed("get", owner), returns: owner.to_owned(), returns_list: false, args: get_args_v });
    out.push(RootField { name: prefixed("create", owner), returns: owner.to_owned(), returns_list: false, args: create_args });
    out.push(
        RootField { name: prefixed("update", owner), returns: String::from_str("Boolean"), returns_list: false, args: update_args },
    );
    out.push(
        RootField { name: prefixed("delete", owner), returns: String::from_str("Boolean"), returns_list: false, args: delete_args },
    );
    proof {
        let expected = root_fields(owner@, uniques@.map_values(|u: String| u@), has_vector);
        assert(args_view(out@[0].args@) =~= expected[0].args);
        assert(args_view(out@[1].args@) =~= expected[1].args);
        assert(args_view(out@[2].args@) =~= expected[2].args);
        assert(args_view(out@[3].args@) =~= expected[3].args);
        assert(args_view(out@[4].args@) =~= expected[4].args);
        assert(out@.map_values(|f: RootField| root_field_view(f)) =~= expected);
    }
    out
}

/// The type an object type's field is exposed with: its name, whether it
/// is a list, and whether it is non-null. `ID` is a non-null `ID`; the
/// built-in scalars are single values; any other type keeps its list mark.
pub open spec fn object_output_type(t: Seq<char>, list: bool) -> (Seq<char>, bool, bool) {
    if t == "ID"@ {
        ("ID"@, false, true)
    } else if t == "String"@ || t == "Int"@ || t == "Boolean"@ || t == "Int64"@ || t == "DateTime"@ || t == "GeoPoint"@
        || t == "Float"@ {
        (t, false, false)
    } else {
        (t, list, false)
    }
}

/// The type an interface's field is declared with (as
/// [`object_output_type`], with only `String`, `Int` and `Boolean` taken as
/// single values).
pub open spec fn interface_output_type(t: Seq<char>, list: bool) -> (Seq<char>, bool, bool) {
    if t == "ID"@ {
        ("ID"@, false, true)
    } else if t == "String"@ || t == "Int"@ || t == "Boolean"@ {
        (t, false, false)
    } else {
        (t, list, false)
    }
}

/// The type a declared input type's field takes: its own, with a point
/// given as `GeoPointInput`.
pub open spec fn declared_input_base(t: Seq<char>) -> Seq<char> {
    if t == "GeoPoint"@ || t == "GeoPointInput"@ { "GeoPointInput"@ } else { t }
}

/// The fields of a declared input type: name, type, list mark and whether
/// the field is required, in order.
pub open spec fn declared_input_fields(fs: Seq<SdlField>) -> Seq<ArgView> {
    fs.map_values(|f: SdlField| (f.name@, declared_input_base(type_name_of(f.ty)), f.ty is List, f.required))
}

/// The exposed type of an object type's field (see [`object_output_type`]).
pub fn object_field_type(t: &str, list: bool) -> (r: (String, bool, bool))
    ensures
        (r.0@, r.1, r.2) == object_output_type(t@, list),
{
    if same_text(t, "ID") {
        (String::from_str("ID"), false, true)
    } else if same_text(t, "String") || same_text(t, "Int") || same_text(t, "Boolean") || same_text(t, "Int64")
        || same_text(t, "DateTime") || same_text(t, "GeoPoint") || same_text(t, "Float") {
        (String::from_str(t), false, false)
    } else {
        (String::from_str(t), list, false)
    }
}

/// The declared type of an interface's field (see [`interface_output_type`]).
pub fn interface_field_type(t: &str, list: bool) -> (r: (String, bool, bool))
    ensures
        (r.0@, r.1, r.2) == interface_output_type(t@, list),
{
    if same_text(t, "ID") {
        (String::from_str("ID"), false, true)
    } else if same_text(t, "String") || same_text(t, "Int") || same_text(t, "Boolean") {
        (String::from_str(t), false, false)
    } else {
        (String::from_str(t), list, false)
    }
}

/// The fields of a declared input type (see [`declared_input_fields`]).
pub fn declared_input_fields_of(fields: &Vec<SdlField>) -> (r: Vec<Argument>)
    ensures
        args_view(r@) == declared_input_fields(fields@),
{
    let mut out: Vec<Argument> = Vec::new();
    let mut i: usize = 0;
    while i < fields.len()
        invariant
            i <= fields@.len(),
            args_view(out@) == declared_input_fields(fields@.take(i as int)),
        decreases fields@.len() - i,
    {
        let f = &fields[i];
        let t = field_type_name(&f.ty);
        let base = if same_text(t.as_str(), "GeoPoint") || same_text(t.as_str(), "GeoPointInput") {
            String::from_str("GeoPointInput")
        } else {
            t
        };
        let list = match &f.ty {
            SdlType::List(_) => true,
            SdlType::Named(_) => false,
        };
        let ghost prev = out@;
        out.push(argument(f.name.as_str(), base, list, f.required));
        proof {
            assert(args_view(out@) =~= args_view(prev).push(
                (fields@[i as int].name@, declared_input_base(type_name_of(fields@[i as int].ty)), fields@[i as int].ty is List, fields@[i as int].required),
            ));
            assert(fields@.take(i as int + 1) =~= fields@.take(i as int).push(fields@[i as int]));
            assert(declared_input_fields(fields@.take(i as int + 1)) =~= declared_input_fields(fields@.take(i as int)).push(
                (fields@[i as int].name@, declared_input_base(type_name_of(fields@[i as int].ty)), fields@[i as int].ty is List, fields@[i as int].required),
            ));
        }
        i = i + 1;
    }
    proof {
        assert(fields@.take(fields@.len() as int) =~= fields@);
    }
    out
}

/// The built-in scalars a field takes as plain values.
pub open spec fn is_builtin_value(t: Seq<char>) -> bool {
    t == "String"@ || t == "Int"@ || t == "Boolean"@ || t == "Float"@ || t == "Int64"@ || t == "DateTime"@
}

/// Every built-in value scalar other than `ID` is its own input type; `ID`
/// takes no input; any input type is the field's own type, its `<T>Input`
/// type or `GeoPointInput`, and a `<T>Input` type only for a type that is
/// neither a built-in value scalar, a registered custom scalar nor an enum
/// (a point takes `GeoPointInput`, whatever the registry says).
pub proof fn lemma_input_types(defs: Seq<SdlTypeDef>, scalars: Seq<(String, String)>, t: Seq<char>)
    ensures
        is_builtin_value(t) ==> input_type(defs, scalars, t) == Some(t),
        t == "ID"@ ==> input_type(defs, scalars, t) is None,
        input_type(defs, scalars, t) matches Some(x) ==> x == t || x == t + "Input"@ || x == "GeoPointInput"@,
        t != "GeoPoint"@ && input_type(defs, scalars, t) == Some(t + "Input"@) ==> !is_builtin_value(t)
            && custom_scalar(scalars, t) is None && !is_enum_type(defs, t),
{
    reveal_strlit("String");
    reveal_strlit("Int");
    reveal_strlit("Boolean");
    reveal_strlit("Float");
    reveal_strlit("Int64");
    reveal_strlit("DateTime");
    reveal_strlit("ID");
    reveal_strlit("Input");
    reveal_strlit("GeoPoint");
    reveal_strlit("GeoPointInput");
    assert((t + "Input"@).len() == t.len() + 5);
    assert(t + "Input"@ != t) by {
        assert((t + "Input"@).len() != t.len());
    }
}

/// A field is filtered with its registered filter when its type is a
/// custom scalar, with `StringFilter` when it is an enum, not at all when
/// it is `ID`, and otherwise with its type's own `<T>Filter`.
pub proof fn lemma_filter_types(defs: Seq<SdlTypeDef>, scalars: Seq<(String, String)>, t: Seq<char>)
    ensures
        t == "ID"@ ==> filter_type(defs, scalars, t) is None,
        t != "ID"@ ==> (custom_scalar(scalars, t) matches Some(f) ==> filter_type(defs, scalars, t) == Some(f)),
        t != "ID"@ && custom_scalar(scalars, t) is None && is_enum_type(defs, t) ==> filter_type(defs, scalars, t) == Some(
            "StringFilter"@,
        ),
        t != "ID"@ && custom_scalar(scalars, t) is None && !is_enum_type(defs, t) ==> filter_type(defs, scalars, t) == Some(
            t + "Filter"@,
        ),
{
    reveal_strlit("ID");
}

} // verus!
