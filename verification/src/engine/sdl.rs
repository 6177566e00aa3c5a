//! What a schema's type definitions mean to the database: for each type,
//! its unique fields, search strategies, cascade and relation fields, the
//! inverse edges of its relations (declared with `@hasInverse` or found by
//! a single back-pointing field), its vector field and the validation
//! rules its fields carry. The SDL text is parsed elsewhere; this module
//! reads the definitions as [`SdlTypeDef`] values.
use vstd::prelude::*;
use crate::engine::schema::{RangeBound, TypeKind, ValidationRule};
use crate::engine::tokenizer::texts;
use crate::render::same_text;

verus! {

/// A literal directive argument.
#[derive(Debug)]
pub enum SdlValue {
    Str(String),
    Enum(String),
    /// A number: its value as an `i64` when it is one, and as a double.
    Number { as_int: Option<i64>, as_float: RangeBound },
    List(Vec<SdlValue>),
    Other,
}

/// A directive and its arguments, in the order written.
#[derive(Debug)]
pub struct SdlDirective {
    pub name: String,
    pub arguments: Vec<(String, SdlValue)>,
}

/// A field's type, without its non-null marks.
#[derive(Debug)]
pub enum SdlType {
    Named(String),
    List(Box<SdlType>),
}

/// A field of an object, interface or input type.
#[derive(Debug)]
pub struct SdlField {
    pub name: String,
    pub ty: SdlType,
    /// The field's type is marked non-null (`!`).
    pub required: bool,
    pub directives: Vec<SdlDirective>,
}

/// How a type is defined.
#[derive(Debug)]
pub enum SdlKind {
    Scalar,
    Object { fields: Vec<SdlField>, implements: Vec<String> },
    /// An interface and its declared fields.
    Interface(Vec<SdlField>),
    Union(Vec<String>),
    /// An enum and its values.
    Enum(Vec<String>),
    /// A declared input type and its fields.
    InputObject(Vec<SdlField>),
}

/// One type definition of a schema.
#[derive(Debug)]
pub struct SdlTypeDef {
    pub name: String,
    pub kind: SdlKind,
}

/// The inverse edge of a relation field.
#[derive(Debug, Clone)]
pub struct SchemaInverse {
    pub field: String,
    pub inverse_type: String,
    pub inverse_field: String,
    pub inverse_is_list: bool,
}

/// What the database keeps of one type. Keyed tables list each key once,
/// in the order keys first appeared; a later entry for a key replaces the
/// earlier one in place.
#[derive(Debug, Clone)]
pub struct TypeMetadataModel {
    pub uniques: Vec<String>,
    pub inverses: Vec<SchemaInverse>,
    /// Field name and its search strategies.
    pub search_fields: Vec<(String, Vec<String>)>,
    /// Field name and the type it points at.
    pub cascade_fields: Vec<(String, String)>,
    pub interfaces: Vec<String>,
    /// Field name and the rules its values must meet.
    pub validate_fields: Vec<(String, Vec<ValidationRule>)>,
    /// Field name and the type it points at.
    pub relations: Vec<(String, String)>,
    /// The vector field and the field its vectors are made from.
    pub vector: Option<(String, String)>,
    pub kind: TypeKind,
}

pub struct InverseView {
    pub field: Seq<char>,
    pub inverse_type: Seq<char>,
    pub inverse_field: Seq<char>,
    pub inverse_is_list: bool,
}

pub enum KindView {
    Object,
    Interface,
    Union(Seq<Seq<char>>),
}

/// [`TypeMetadataModel`] with its texts as character sequences.
#[verifier::ext_equal]
pub struct MetaView {
    pub uniques: Seq<Seq<char>>,
    pub inverses: Seq<InverseView>,
    pub search_fields: Seq<(Seq<char>, Seq<Seq<char>>)>,
    pub cascade_fields: Seq<(Seq<char>, Seq<char>)>,
    pub interfaces: Seq<Seq<char>>,
    pub validate_fields: Seq<(Seq<char>, Seq<ValidationRule>)>,
    pub relations: Seq<(Seq<char>, Seq<char>)>,
    pub vector: Option<(Seq<char>, Seq<char>)>,
    pub kind: KindView,
}

pub open spec fn inverse_view(i: SchemaInverse) -> InverseView {
    InverseView {
        field: i.field@,
        inverse_type: i.inverse_type@,
        inverse_field: i.inverse_field@,
        inverse_is_list: i.inverse_is_list,
    }
}

pub open spec fn kind_view(k: TypeKind) -> KindView {
    match k {
        TypeKind::Object => KindView::Object,
        TypeKind::Interface => KindView::Interface,
        TypeKind::Union(m) => KindView::Union(texts(m@)),
    }
}

/// Entries of a keyed table with their keys, and values taken by `g`.
pub open spec fn keyed<X, V>(s: Seq<(String, X)>, g: spec_fn(X) -> V) -> Seq<(Seq<char>, V)> {
    s.map_values(|e: (String, X)| (e.0@, g(e.1)))
}

pub open spec fn text_of(s: String) -> Seq<char> {
    s@
}

pub open spec fn texts_of(v: Vec<String>) -> Seq<Seq<char>> {
    texts(v@)
}

pub open spec fn rules_of(v: Vec<ValidationRule>) -> Seq<ValidationRule> {
    v@
}

pub open spec fn texts_fn() -> spec_fn(Vec<String>) -> Seq<Seq<char>> {
    |v: Vec<String>| texts_of(v)
}

pub open spec fn text_fn() -> spec_fn(String) -> Seq<char> {
    |t: String| text_of(t)
}

pub open spec fn rules_fn() -> spec_fn(Vec<ValidationRule>) -> Seq<ValidationRule> {
    |v: Vec<ValidationRule>| rules_of(v)
}

pub open spec fn inverses_view(v: Seq<SchemaInverse>) -> Seq<InverseView> {
    v.map_values(|i: SchemaInverse| inverse_view(i))
}

pub open spec fn meta_view(m: TypeMetadataModel) -> MetaView {
    MetaView {
        uniques: texts(m.uniques@),
        inverses: inverses_view(m.inverses@),
        search_fields: keyed(m.search_fields@, texts_fn()),
        cascade_fields: keyed(m.cascade_fields@, text_fn()),
        interfaces: texts(m.interfaces@),
        validate_fields: keyed(m.validate_fields@, rules_fn()),
        relations: keyed(m.relations@, text_fn()),
        vector: match m.vector {
            Some((f, src)) => Some((f@, src@)),
            None => None,
        },
        kind: kind_view(m.kind),
    }
}

/// The metadata table with its texts as character sequences.
pub open spec fn meta_fn() -> spec_fn(TypeMetadataModel) -> MetaView {
    |m: TypeMetadataModel| meta_view(m)
}

pub open spec fn metadata_view(r: Seq<(String, TypeMetadataModel)>) -> Seq<(Seq<char>, MetaView)> {
    keyed(r, meta_fn())
}

/// `s` with `(k, v)` stored: replacing the first entry for `k`, or added
/// at the end when there is none.
pub open spec fn put<V>(s: Seq<(Seq<char>, V)>, k: Seq<char>, v: V) -> Seq<(Seq<char>, V)>
    decreases s.len(),
{
    if s.len() == 0 {
        seq![(k, v)]
    } else if s[0].0 == k {
        s.update(0, (k, v))
    } else {
        seq![s[0]] + put(s.drop_first(), k, v)
    }
}

/// The named type of a field, or of a list's elements; `String` for a list
/// of lists.
pub open spec fn type_name_of(t: SdlType) -> Seq<char> {
    match t {
        SdlType::Named(n) => n@,
        SdlType::List(inner) => match *inner {
            SdlType::Named(n) => n@,
            SdlType::List(_) => "String"@,
        },
    }
}

/// The scalar types; a field of any other type is a relation.
pub open spec fn is_scalar_name(n: Seq<char>) -> bool {
    n == "String"@ || n == "Int"@ || n == "Boolean"@ || n == "ID"@ || n == "Float"@ || n == "Int64"@
        || n == "DateTime"@ || n == "GeoPoint"@ || n == "Polygon"@ || n == "MultiPolygon"@
}

/// The first directive named `name`.
pub open spec fn first_directive(ds: Seq<SdlDirective>, name: Seq<char>) -> Option<SdlDirective>
    decreases ds.len(),
{
    if ds.len() == 0 {
        None
    } else if ds[0].name@ == name {
        Some(ds[0])
    } else {
        first_directive(ds.drop_first(), name)
    }
}

/// The value of the first argument named `name`.
pub open spec fn first_argument(args: Seq<(String, SdlValue)>, name: Seq<char>) -> Option<SdlValue>
    decreases args.len(),
{
    if args.len() == 0 {
        None
    } else if args[0].0@ == name {
        Some(args[0].1)
    } else {
        first_argument(args.drop_first(), name)
    }
}

/// The name a string or enum literal carries, if it is one.
pub open spec fn literal_name(v: SdlValue) -> Seq<Seq<char>> {
    match v {
        SdlValue::Str(s) => seq![s@],
        SdlValue::Enum(n) => seq![n@],
        _ => Seq::empty(),
    }
}

/// The string and enum literals among list items, in order.
pub open spec fn item_names(items: Seq<SdlValue>) -> Seq<Seq<char>>
    decreases items.len(),
{
    if items.len() == 0 {
        Seq::empty()
    } else {
        item_names(items.drop_last()) + literal_name(items.last())
    }
}

/// The names a `by` argument gives: a literal's, or those of a list's
/// literal items.
pub open spec fn value_names(v: SdlValue) -> Seq<Seq<char>> {
    match v {
        SdlValue::List(items) => item_names(items@),
        _ => literal_name(v),
    }
}

/// The names given by every `by` argument, in order.
pub open spec fn by_names(args: Seq<(String, SdlValue)>) -> Seq<Seq<char>>
    decreases args.len(),
{
    if args.len() == 0 {
        Seq::empty()
    } else {
        by_names(args.drop_last()) + if args.last().0@ == "by"@ { value_names(args.last().1) } else { Seq::empty() }
    }
}

/// The search strategies of a `@search` directive: those its `by`
/// arguments name, or `term` when they name none.
pub open spec fn search_strategies(d: SdlDirective) -> Seq<Seq<char>> {
    if by_names(d.arguments@).len() == 0 {
        seq!["term"@]
    } else {
        by_names(d.arguments@)
    }
}

/// The fields of the last object type named `ty`.
pub open spec fn object_fields(defs: Seq<SdlTypeDef>, ty: Seq<char>) -> Option<Seq<SdlField>>
    decreases defs.len(),
{
    if defs.len() == 0 {
        None
    } else if defs.last().name@ == ty && defs.last().kind is Object {
        Some(defs.last().kind->fields@)
    } else {
        object_fields(defs.drop_last(), ty)
    }
}

/// The last field named `name`.
pub open spec fn last_named_field(fs: Seq<SdlField>, name: Seq<char>) -> Option<SdlField>
    decreases fs.len(),
{
    if fs.len() == 0 {
        None
    } else if fs.last().name@ == name {
        Some(fs.last())
    } else {
        last_named_field(fs.drop_last(), name)
    }
}

/// No later field has the name of field `i`.
pub open spec fn is_last_of_name(fs: Seq<SdlField>, i: int) -> bool {
    forall|j: int| i < j < fs.len() ==> #[trigger] fs[j].name@ != fs[i].name@
}

/// Among the first `n` fields, the positions of the last field of each
/// name whose type is `owner`: the fields that point back at `owner`.
pub open spec fn back_pointers(fs: Seq<SdlField>, n: int, owner: Seq<char>) -> Seq<int>
    decreases n,
{
    if n <= 0 {
        Seq::empty()
    } else {
        back_pointers(fs, n - 1, owner) + if is_last_of_name(fs, n - 1) && type_name_of(fs[n - 1].ty) == owner {
            seq![n - 1]
        } else {
            Seq::empty()
        }
    }
}

/// Whether a list-typed field of that name exists on the target's last
/// definition.
pub open spec fn target_field_is_list(defs: Seq<SdlTypeDef>, target: Seq<char>, field: Seq<char>) -> bool {
    match object_fields(defs, target) {
        Some(tfs) => match last_named_field(tfs, field) {
            Some(g) => g.ty is List,
            None => false,
        },
        None => false,
    }
}

/// The inverse a `@hasInverse` directive declares: its `field` argument,
/// when that is a string.
pub open spec fn declared_inverse(defs: Seq<SdlTypeDef>, f: SdlField, d: SdlDirective) -> Option<InverseView> {
    match first_argument(d.arguments@, "field"@) {
        Some(SdlValue::Str(x)) => Some(
            InverseView {
                field: f.name@,
                inverse_type: type_name_of(f.ty),
                inverse_field: x@,
                inverse_is_list: target_field_is_list(defs, type_name_of(f.ty), x@),
            },
        ),
        _ => None,
    }
}

/// The inverse found without a directive: the target type's one field that
/// points back at `owner`, when there is exactly one.
pub open spec fn found_inverse(defs: Seq<SdlTypeDef>, owner: Seq<char>, f: SdlField) -> Option<InverseView> {
    match object_fields(defs, type_name_of(f.ty)) {
        Some(tfs) => {
            let c = back_pointers(tfs, tfs.len() as int, owner);
            if c.len() == 1 {
                Some(
                    InverseView {
                        field: f.name@,
                        inverse_type: type_name_of(f.ty),
                        inverse_field: tfs[c[0]].name@,
                        inverse_is_list: tfs[c[0]].ty is List,
                    },
                )
            } else {
                None
            }
        },
        None => None,
    }
}

/// `@unique` adds the field to the uniques.
pub open spec fn unique_step(m: MetaView, f: SdlField) -> MetaView {
    if first_directive(f.directives@, "unique"@) is Some { MetaView { uniques: m.uniques.push(f.name@), ..m } } else { m }
}

/// `@search` stores the field's strategies.
pub open spec fn search_step(m: MetaView, f: SdlField) -> MetaView {
    match first_directive(f.directives@, "search"@) {
        Some(d) => MetaView { search_fields: put(m.search_fields, f.name@, search_strategies(d)), ..m },
        None => m,
    }
}

/// `@cascade` adds the field and the type it points at.
pub open spec fn cascade_step(m: MetaView, f: SdlField) -> MetaView {
    if first_directive(f.directives@, "cascade"@) is Some {
        MetaView { cascade_fields: m.cascade_fields.push((f.name@, type_name_of(f.ty))), ..m }
    } else {
        m
    }
}

/// The source field a `@vector` directive names: its `from` string, else
/// none (vectors given directly).
pub open spec fn vector_source(d: SdlDirective) -> Seq<char> {
    match first_argument(d.arguments@, "from"@) {
        Some(SdlValue::Str(s)) => s@,
        _ => Seq::empty(),
    }
}

/// `@vector` makes the field the type's vector field.
pub open spec fn vector_step(m: MetaView, f: SdlField) -> MetaView {
    match first_directive(f.directives@, "vector"@) {
        Some(d) => MetaView { vector: Some((f.name@, vector_source(d))), ..m },
        None => m,
    }
}

/// `m` with the inverse `iv` added.
pub open spec fn with_inverse(m: MetaView, iv: InverseView) -> MetaView {
    MetaView { inverses: m.inverses.push(iv), ..m }
}

/// Whether an inverse for `field` is already recorded.
pub open spec fn has_inverse_for(inverses: Seq<InverseView>, field: Seq<char>) -> bool {
    exists|k: int| 0 <= k < inverses.len() && #[trigger] inverses[k].field == field
}

/// The field's inverse: the declared one under `@hasInverse`; otherwise
/// the one found, unless the field has one already.
pub open spec fn inverse_step(defs: Seq<SdlTypeDef>, owner: Seq<char>, m: MetaView, f: SdlField) -> MetaView {
    match first_directive(f.directives@, "hasInverse"@) {
        Some(d) => match declared_inverse(defs, f, d) {
            Some(iv) => with_inverse(m, iv),
            None => m,
        },
        None => match found_inverse(defs, owner, f) {
            Some(iv) => if has_inverse_for(m.inverses, f.name@) {
                m
            } else {
                with_inverse(m, iv)
            },
            None => m,
        },
    }
}

/// What one field of `owner` adds in the first pass, in this order: its
/// unique mark, search strategies, cascade entry, vector field and inverse.
pub open spec fn field_facts(defs: Seq<SdlTypeDef>, owner: Seq<char>, m: MetaView, f: SdlField) -> MetaView {
    inverse_step(defs, owner, vector_step(cascade_step(search_step(unique_step(m, f), f), f), f), f)
}

/// The `@regex` rule: its `pattern` string.
pub open spec fn regex_rule(ds: Seq<SdlDirective>) -> Seq<ValidationRule> {
    match first_directive(ds, "regex"@) {
        Some(d) => match first_argument(d.arguments@, "pattern"@) {
            Some(SdlValue::Str(p)) => seq![ValidationRule::Regex(p)],
            _ => Seq::empty(),
        },
        None => Seq::empty(),
    }
}

/// A bound that is an integer number.
pub open spec fn int_bound(v: Option<SdlValue>) -> Option<i64> {
    match v {
        Some(SdlValue::Number { as_int, .. }) => as_int,
        _ => None,
    }
}

/// A bound that is a number, as a double.
pub open spec fn float_bound(v: Option<SdlValue>) -> Option<RangeBound> {
    match v {
        Some(SdlValue::Number { as_float, .. }) => Some(as_float),
        _ => None,
    }
}

/// The `@length` rule, when it has a bound.
pub open spec fn length_rule(ds: Seq<SdlDirective>) -> Seq<ValidationRule> {
    match first_directive(ds, "length"@) {
        Some(d) => {
            let min = int_bound(first_argument(d.arguments@, "min"@));
            let max = int_bound(first_argument(d.arguments@, "max"@));
            if min is Some || max is Some { seq![ValidationRule::Length { min, max }] } else { Seq::empty() }
        },
        None => Seq::empty(),
    }
}

/// The `@range` rule, when it has a bound.
pub open spec fn range_rule(ds: Seq<SdlDirective>) -> Seq<ValidationRule> {
    match first_directive(ds, "range"@) {
        Some(d) => {
            let min = float_bound(first_argument(d.arguments@, "min"@));
            let max = float_bound(first_argument(d.arguments@, "max"@));
            if min is Some || max is Some { seq![ValidationRule::Range { min, max }] } else { Seq::empty() }
        },
        None => Seq::empty(),
    }
}

/// The rules a field's directives attach, in the order regex, length, range.
pub open spec fn field_rule_list(ds: Seq<SdlDirective>) -> Seq<ValidationRule> {
    regex_rule(ds) + length_rule(ds) + range_rule(ds)
}

/// What one field adds in the second pass: a relation when its type is not
/// a scalar, and its rules when it has any.
pub open spec fn field_rules(m: MetaView, f: SdlField) -> MetaView {
    let m1 = if is_scalar_name(type_name_of(f.ty)) {
        m
    } else {
        MetaView { relations: put(m.relations, f.name@, type_name_of(f.ty)), ..m }
    };
    let rules = field_rule_list(f.directives@);
    if rules.len() > 0 {
        MetaView { validate_fields: put(m1.validate_fields, f.name@, rules), ..m1 }
    } else {
        m1
    }
}

pub open spec fn first_pass(defs: Seq<SdlTypeDef>, owner: Seq<char>, m: MetaView, fs: Seq<SdlField>) -> MetaView
    decreases fs.len(),
{
    if fs.len() == 0 {
        m
    } else {
        field_facts(defs, owner, first_pass(defs, owner, m, fs.drop_last()), fs.last())
    }
}

pub open spec fn second_pass(m: MetaView, fs: Seq<SdlField>) -> MetaView
    decreases fs.len(),
{
    if fs.len() == 0 {
        m
    } else {
        field_rules(second_pass(m, fs.drop_last()), fs.last())
    }
}

/// Metadata with nothing recorded.
pub open spec fn empty_meta(kind: KindView) -> MetaView {
    MetaView {
        uniques: Seq::empty(),
        inverses: Seq::empty(),
        search_fields: Seq::empty(),
        cascade_fields: Seq::empty(),
        interfaces: Seq::empty(),
        validate_fields: Seq::empty(),
        relations: Seq::empty(),
        vector: None,
        kind,
    }
}

/// The metadata of an object type: both passes over its fields, in order,
/// and the interfaces it implements.
pub open spec fn object_meta(defs: Seq<SdlTypeDef>, owner: Seq<char>, fs: Seq<SdlField>, implements: Seq<String>) -> MetaView {
    second_pass(
        first_pass(defs, owner, MetaView { interfaces: texts(implements), ..empty_meta(KindView::Object) }, fs),
        fs,
    )
}

/// The root operation types and introspection types get no metadata.
pub open spec fn is_skipped_type(n: Seq<char>) -> bool {
    n == "Query"@ || n == "Mutation"@ || n == "Subscription"@ || "__"@.is_prefix_of(n)
}

/// The metadata one definition yields: objects, interfaces and unions have
/// some; scalars, enums and input objects none.
pub open spec fn definition_meta(defs: Seq<SdlTypeDef>, d: SdlTypeDef) -> Option<MetaView> {
    if is_skipped_type(d.name@) {
        None
    } else {
        match d.kind {
            SdlKind::Object { fields, implements } => Some(object_meta(defs, d.name@, fields@, implements@)),
            SdlKind::Interface(_) => Some(empty_meta(KindView::Interface)),
            SdlKind::Union(members) => Some(empty_meta(KindView::Union(texts(members@)))),
            _ => None,
        }
    }
}

/// The table built from the definitions `ds` (all of `defs` is consulted
/// for other types' fields).
pub open spec fn metadata_of(defs: Seq<SdlTypeDef>, ds: Seq<SdlTypeDef>) -> Seq<(Seq<char>, MetaView)>
    decreases ds.len(),
{
    if ds.len() == 0 {
        Seq::empty()
    } else {
        let rest = metadata_of(defs, ds.drop_last());
        match definition_meta(defs, ds.last()) {
            Some(m) => put(rest, ds.last().name@, m),
            None => rest,
        }
    }
}

/// The metadata table of a schema's definitions.
pub open spec fn spec_type_metadata(defs: Seq<SdlTypeDef>) -> Seq<(Seq<char>, MetaView)> {
    metadata_of(defs, defs)
}

/// Storing into a table whose first `i` keys differ from `k` keeps them.
proof fn lemma_put_prefix<V>(s: Seq<(Seq<char>, V)>, i: int, k: Seq<char>, v: V)
    requires
        0 <= i <= s.len(),
        forall|j: int| 0 <= j < i ==> #[trigger] s[j].0 != k,
    ensures
        put(s, k, v) == s.take(i) + put(s.skip(i), k, v),
    decreases i,
{
    if i == 0 {
        assert(s.take(0) + put(s.skip(0), k, v) =~= put(s, k, v)) by {
            assert(s.skip(0) =~= s);
        }
    } else {
        let t = s.drop_first();
        assert(s[0].0 != k);
        assert forall|j: int| 0 <= j < i - 1 implies #[trigger] t[j].0 != k by {
            assert(t[j] == s[j + 1]);
        }
        lemma_put_prefix(t, i - 1, k, v);
        assert(t.skip(i - 1) =~= s.skip(i));
        assert(seq![s[0]] + t.take(i - 1) =~= s.take(i));
        assert(put(s, k, v) == seq![s[0]] + put(t, k, v));
        assert(seq![s[0]] + (t.take(i - 1) + put(s.skip(i), k, v)) =~= s.take(i) + put(s.skip(i), k, v));
    }
}

/// Stores `value` under `key` (see [`put`]).
fn put_entry<X, V>(entries: &mut Vec<(String, X)>, key: String, value: X, Ghost(g): Ghost<spec_fn(X) -> V>)
    ensures
        keyed(final(entries)@, g) == put(keyed(old(entries)@, g), key@, g(value)),
{
    let ghost ks = keyed(entries@, g);
    let mut i: usize = 0;
    while i < entries.len()
        invariant
            i <= entries@.len(),
            entries@ == old(entries)@,
            ks == keyed(entries@, g),
            forall|j: int| 0 <= j < i ==> #[trigger] ks[j].0 != key@,
        decreases entries@.len() - i,
    {
        if same_text(entries[i].0.as_str(), key.as_str()) {
            proof {
                lemma_put_prefix(ks, i as int, key@, g(value));
                assert(ks.skip(i as int)[0].0 == key@);
            }
            let ghost k = key@;
            let ghost gv = g(value);
            entries.set(i, (key, value));
            proof {
                assert(put(ks.skip(i as int), k, gv) == ks.skip(i as int).update(0, (k, gv)));
                assert(keyed(entries@, g) =~= ks.take(i as int) + ks.skip(i as int).update(0, (k, gv)));
            }
            return;
        }
        i = i + 1;
    }
    proof {
        lemma_put_prefix(ks, i as int, key@, g(value));
        assert(ks.skip(i as int) =~= Seq::<(Seq<char>, V)>::empty());
        assert(ks.take(i as int) =~= ks);
    }
    let ghost k = key@;
    let ghost gv = g(value);
    entries.push((key, value));
    proof {
        assert(keyed(entries@, g) =~= ks + seq![(k, gv)]);
    }
}

/// The first directive named `name` (see [`first_directive`]).
fn find_directive<'a>(ds: &'a Vec<SdlDirective>, name: &str) -> (r: Option<&'a SdlDirective>)
    ensures
        match r {
            Some(d) => first_directive(ds@, name@) == Some(*d),
            None => first_directive(ds@, name@) is None,
        },
{
    let mut i: usize = 0;
    proof {
        assert(ds@.skip(0) =~= ds@);
    }
    while i < ds.len()
        invariant
            i <= ds@.len(),
            first_directive(ds@, name@) == first_directive(ds@.skip(i as int), name@),
        decreases ds@.len() - i,
    {
        proof {
            assert(ds@.skip(i as int).drop_first() =~= ds@.skip(i as int + 1));
            assert(ds@.skip(i as int)[0] == ds@[i as int]);
        }
        if same_text(ds[i].name.as_str(), name) {
            return Some(&ds[i]);
        }
        i = i + 1;
    }
    None
}

/// The value of the first argument named `name` (see [`first_argument`]).
fn find_argument<'a>(args: &'a Vec<(String, SdlValue)>, name: &str) -> (r: Option<&'a SdlValue>)
    ensures
        match r {
            Some(v) => first_argument(args@, name@) == Some(*v),
            None => first_argument(args@, name@) is None,
        },
{
    let mut i: usize = 0;
    proof {
        assert(args@.skip(0) =~= args@);
    }
    while i < args.len()
        invariant
            i <= args@.len(),
            first_argument(args@, name@) == first_argument(args@.skip(i as int), name@),
        decreases args@.len() - i,
    {
        proof {
            assert(args@.skip(i as int).drop_first() =~= args@.skip(i as int + 1));
            assert(args@.skip(i as int)[0] == args@[i as int]);
        }
        if same_text(args[i].0.as_str(), name) {
            return Some(&args[i].1);
        }
        i = i + 1;
    }
    None
}

/// The named type of a field (see [`type_name_of`]).
pub fn field_type_name(t: &SdlType) -> (r: String)
    ensures
        r@ == type_name_of(*t),
{
    match t {
        SdlType::Named(n) => n.clone(),
        SdlType::List(inner) => match &**inner {
            SdlType::Named(n) => n.clone(),
            SdlType::List(_) => String::from_str("String"),
        },
    }
}

/// Appends the name a literal carries (see [`literal_name`]).
fn push_literal_name(out: &mut Vec<String>, v: &SdlValue)
    ensures
        texts(final(out)@) == texts(old(out)@) + literal_name(*v),
{
    let ghost before = texts(out@);
    match v {
        SdlValue::Str(s) => out.push(s.clone()),
        SdlValue::Enum(n) => out.push(n.clone()),
        _ => {},
    }
    assert(texts(out@) =~= before + literal_name(*v));
}

/// The search strategies of a `@search` directive (see [`search_strategies`]).
pub fn strategies_of(d: &SdlDirective) -> (r: Vec<String>)
    ensures
        texts(r@) == search_strategies(*d),
{
    let mut out: Vec<String> = Vec::new();
    let args = &d.arguments;
    let mut i: usize = 0;
    proof {
        assert(texts(out@) =~= Seq::<Seq<char>>::empty());
    }
    while i < args.len()
        invariant
            i <= args@.len(),
            args@ == d.arguments@,
            texts(out@) == by_names(args@.take(i as int)),
        decreases args@.len() - i,
    {
        let ghost before = texts(out@);
        proof {
            let t = args@.take(i as int + 1);
            assert(t.drop_last() =~= args@.take(i as int));
            assert(t.last() == args@[i as int]);
        }
        if same_text(args[i].0.as_str(), "by") {
            match &args[i].1 {
                SdlValue::List(items) => {
                    let mut j: usize = 0;
                    while j < items.len()
                        invariant
                            j <= items@.len(),
                            texts(out@) == before + item_names(items@.take(j as int)),
                        decreases items@.len() - j,
                    {
                        proof {
                            let t = items@.take(j as int + 1);
                            assert(t.drop_last() =~= items@.take(j as int));
                            assert(t.last() == items@[j as int]);
                        }
                        push_literal_name(&mut out, &items[j]);
                        proof {
                            let t = items@.take(j as int + 1);
                            assert(before + item_names(items@.take(j as int)) + literal_name(items@[j as int])
                                =~= before + item_names(t));
                        }
                        j = j + 1;
                    }
                    proof {
                        assert(items@.take(items@.len() as int) =~= items@);
                    }
                },
                other => {
                    push_literal_name(&mut out, other);
                },
            }
        } else {
            proof {
                assert(before + Seq::<Seq<char>>::empty() =~= before);
            }
        }
        i = i + 1;
    }
    proof {
        assert(args@.take(args@.len() as int) =~= args@);
    }
    if out.len() == 0 {
        out.push(String::from_str("term"));
        proof {
            assert(texts(out@) =~= seq!["term"@]);
        }
    }
    out
}

/// The fields of the last object type named `ty` (see [`object_fields`]).
fn find_object_fields<'a>(defs: &'a Vec<SdlTypeDef>, ty: &str) -> (r: Option<&'a Vec<SdlField>>)
    ensures
        match r {
            Some(fs) => object_fields(defs@, ty@) == Some(fs@),
            None => object_fields(defs@, ty@) is None,
        },
{
    let mut i: usize = defs.len();
    proof {
        assert(defs@.take(defs@.len() as int) =~= defs@);
    }
    while i > 0
        invariant
            i <= defs@.len(),
            object_fields(defs@, ty@) == object_fields(defs@.take(i as int), ty@),
        decreases i,
    {
        proof {
            let t = defs@.take(i as int);
            assert(t.drop_last() =~= defs@.take(i as int - 1));
            assert(t.last() == defs@[i as int - 1]);
        }
        if same_text(defs[i - 1].name.as_str(), ty) {
            match &defs[i - 1].kind {
                SdlKind::Object { fields, .. } => {
                    return Some(fields);
                },
                _ => {},
            }
        }
        i = i - 1;
    }
    None
}

/// The last field named `name` (see [`last_named_field`]).
fn find_last_field<'a>(fs: &'a Vec<SdlField>, name: &str) -> (r: Option<&'a SdlField>)
    ensures
        match r {
            Some(f) => last_named_field(fs@, name@) == Some(*f),
            None => last_named_field(fs@, name@) is None,
        },
{
    let mut i: usize = fs.len();
    proof {
        assert(fs@.take(fs@.len() as int) =~= fs@);
    }
    while i > 0
        invariant
            i <= fs@.len(),
            last_named_field(fs@, name@) == last_named_field(fs@.take(i as int), name@),
        decreases i,
    {
        proof {
            let t = fs@.take(i as int);
            assert(t.drop_last() =~= fs@.take(i as int - 1));
            assert(t.last() == fs@[i as int - 1]);
        }
        if same_text(fs[i - 1].name.as_str(), name) {
            return Some(&fs[i - 1]);
        }
        i = i - 1;
    }
    None
}

fn is_list(t: &SdlType) -> (b: bool)
    ensures
        b == (*t is List),
{
    match t {
        SdlType::List(_) => true,
        SdlType::Named(_) => false,
    }
}

/// Whether field `i` is the last of its name (see [`is_last_of_name`]).
fn last_of_name(fs: &Vec<SdlField>, i: usize) -> (b: bool)
    requires
        i < fs@.len(),
    ensures
        b == is_last_of_name(fs@, i as int),
{
    let n = fs.len();
    let mut j: usize = i + 1;
    while j < n
        invariant
            n == fs@.len(),
            i < j <= fs@.len(),
            forall|k: int| i < k < j ==> #[trigger] fs@[k].name@ != fs@[i as int].name@,
        decreases fs@.len() - j,
    {
        if same_text(fs[j].name.as_str(), fs[i].name.as_str()) {
            return false;
        }
        j = j + 1;
    }
    true
}

/// The fields that point back at `owner` (see [`back_pointers`]).
fn find_back_pointers(fs: &Vec<SdlField>, owner: &str) -> (r: Vec<usize>)
    ensures
        r@.map_values(|u: usize| u as int) == back_pointers(fs@, fs@.len() as int, owner@),
{
    let mut out: Vec<usize> = Vec::new();
    let mut i: usize = 0;
    proof {
        assert(out@.map_values(|u: usize| u as int) =~= Seq::<int>::empty());
    }
    while i < fs.len()
        invariant
            i <= fs@.len(),
            out@.map_values(|u: usize| u as int) == back_pointers(fs@, i as int, owner@),
        decreases fs@.len() - i,
    {
        let ghost before = out@;
        let t = field_type_name(&fs[i].ty);
        if last_of_name(fs, i) && same_text(t.as_str(), owner) {
            out.push(i);
            proof {
                assert(out@.map_values(|u: usize| u as int) =~= before.map_values(|u: usize| u as int) + seq![i as int]);
            }
        } else {
            proof {
                assert(out@.map_values(|u: usize| u as int) =~= before.map_values(|u: usize| u as int) + Seq::<int>::empty());
            }
        }
        i = i + 1;
    }
    out
}

fn apply_unique(m: &mut TypeMetadataModel, f: &SdlField)
    ensures
        meta_view(*final(m)) == unique_step(meta_view(*old(m)), *f),
{
    let ghost before = meta_view(*m);
    if find_directive(&f.directives, "unique").is_some() {
        m.uniques.push(f.name.clone());
        proof {
            assert(texts(m.uniques@) =~= before.uniques.push(f.name@));
            assert(meta_view(*m) =~= unique_step(before, *f));
        }
    }
}

fn apply_search(m: &mut TypeMetadataModel, f: &SdlField)
    ensures
        meta_view(*final(m)) == search_step(meta_view(*old(m)), *f),
{
    let ghost before = meta_view(*m);
    match find_directive(&f.directives, "search") {
        Some(d) => {
            let strategies = strategies_of(d);
            put_entry::<Vec<String>, Seq<Seq<char>>>(&mut m.search_fields, f.name.clone(), strategies, Ghost(texts_fn()));
            proof {
                assert(meta_view(*m) =~= search_step(before, *f));
            }
        },
        None => {},
    }
}

fn apply_cascade(m: &mut TypeMetadataModel, f: &SdlField)
    ensures
        meta_view(*final(m)) == cascade_step(meta_view(*old(m)), *f),
{
    let ghost before = meta_view(*m);
    if find_directive(&f.directives, "cascade").is_some() {
        let t = field_type_name(&f.ty);
        m.cascade_fields.push((f.name.clone(), t));
        proof {
            assert(keyed(m.cascade_fields@, text_fn()) =~= before.cascade_fields.push((f.name@, type_name_of(f.ty))));
            assert(meta_view(*m) =~= cascade_step(before, *f));
        }
    }
}

fn apply_vector(m: &mut TypeMetadataModel, f: &SdlField)
    ensures
        meta_view(*final(m)) == vector_step(meta_view(*old(m)), *f),
{
    let ghost before = meta_view(*m);
    match find_directive(&f.directives, "vector") {
        Some(d) => {
            let source = match find_argument(&d.arguments, "from") {
                Some(SdlValue::Str(x)) => x.clone(),
                _ => String::new(),
            };
            m.vector = Some((f.name.clone(), source));
            proof {
                assert(meta_view(*m) =~= vector_step(before, *f));
            }
        },
        None => {},
    }
}

/// Whether `inverses` has an entry for `field` (see [`has_inverse_for`]).
fn inverse_recorded(inverses: &Vec<SchemaInverse>, field: &str) -> (b: bool)
    ensures
        b == has_inverse_for(inverses_view(inverses@), field@),
{
    let ghost iv = inverses_view(inverses@);
    let mut k: usize = 0;
    while k < inverses.len()
        invariant
            k <= inverses@.len(),
            iv == inverses_view(inverses@),
            forall|j: int| 0 <= j < k ==> #[trigger] iv[j].field != field@,
        decreases inverses@.len() - k,
    {
        if same_text(inverses[k].field.as_str(), field) {
            assert(iv[k as int].field == field@);
            return true;
        }
        k = k + 1;
    }
    false
}

fn push_inverse(m: &mut TypeMetadataModel, inv: SchemaInverse)
    ensures
        meta_view(*final(m)) == with_inverse(meta_view(*old(m)), inverse_view(inv)),
{
    let ghost before = meta_view(*m);
    let ghost v = inverse_view(inv);
    m.inverses.push(inv);
    proof {
        assert(inverses_view(m.inverses@) =~= before.inverses.push(v));
        assert(meta_view(*m) =~= with_inverse(before, v));
    }
}

fn apply_inverse(defs: &Vec<SdlTypeDef>, owner: &str, m: &mut TypeMetadataModel, f: &SdlField)
    ensures
        meta_view(*final(m)) == inverse_step(defs@, owner@, meta_view(*old(m)), *f),
{
    let target = field_type_name(&f.ty);
    match find_directive(&f.directives, "hasInverse") {
        Some(d) => {
            match find_argument(&d.arguments, "field") {
                Some(SdlValue::Str(x)) => {
                    let inverse_is_list = match find_object_fields(defs, target.as_str()) {
                        Some(tfs) => match find_last_field(tfs, x.as_str()) {
                            Some(g) => is_list(&g.ty),
                            None => false,
                        },
                        None => false,
                    };
                    push_inverse(
                        m,
                        SchemaInverse { field: f.name.clone(), inverse_type: target, inverse_field: x.clone(), inverse_is_list },
                    );
                },
                _ => {},
            }
        },
        None => {
            match find_object_fields(defs, target.as_str()) {
                Some(tfs) => {
                    let back = find_back_pointers(tfs, owner);
                    proof {
                        assert(back@.map_values(|u: usize| u as int).len() == back@.len());
                    }
                    if back.len() == 1 {
                        let c = back[0];
                        proof {
                            assert(back@.map_values(|u: usize| u as int)[0] == c as int);
                            assert(back_pointers(tfs@, tfs@.len() as int, owner@)[0] == c as int);
                            lemma_back_pointers_in_range(tfs@, tfs@.len() as int, owner@);
                        }
                        if !inverse_recorded(&m.inverses, f.name.as_str()) {
                            let inverse_is_list = is_list(&tfs[c].ty);
                            push_inverse(
                                m,
                                SchemaInverse {
                                    field: f.name.clone(),
                                    inverse_type: target,
                                    inverse_field: tfs[c].name.clone(),
                                    inverse_is_list,
                                },
                            );
                        }
                    }
                },
                None => {},
            }
        },
    }
}

/// The positions [`back_pointers`] gives lie among the first `n` fields.
proof fn lemma_back_pointers_in_range(fs: Seq<SdlField>, n: int, owner: Seq<char>)
    requires
        n <= fs.len(),
    ensures
        forall|k: int| 0 <= k < back_pointers(fs, n, owner).len() ==> 0 <= #[trigger] back_pointers(fs, n, owner)[k] < n,
    decreases n,
{
    if n > 0 {
        lemma_back_pointers_in_range(fs, n - 1, owner);
        let prev = back_pointers(fs, n - 1, owner);
        assert forall|k: int| 0 <= k < back_pointers(fs, n, owner).len() implies 0 <= #[trigger] back_pointers(
            fs,
            n,
            owner,
        )[k] < n by {
            if k < prev.len() {
                assert(back_pointers(fs, n, owner)[k] == prev[k]);
            }
        }
    }
}

/// Applies what one field adds in the first pass (see [`field_facts`]).
fn apply_field_facts(defs: &Vec<SdlTypeDef>, owner: &str, m: &mut TypeMetadataModel, f: &SdlField)
    ensures
        meta_view(*final(m)) == field_facts(defs@, owner@, meta_view(*old(m)), *f),
{
    apply_unique(m, f);
    apply_search(m, f);
    apply_cascade(m, f);
    apply_vector(m, f);
    apply_inverse(defs, owner, m, f);
}

fn copy_bound(b: &RangeBound) -> (r: RangeBound)
    ensures
        r == *b,
{
    RangeBound { bits: b.bits, text: b.text.clone() }
}

fn int_bound_of(v: Option<&SdlValue>) -> (r: Option<i64>)
    ensures
        r == int_bound(match v { Some(x) => Some(*x), None => None }),
{
    match v {
        Some(SdlValue::Number { as_int, .. }) => *as_int,
        _ => None,
    }
}

fn float_bound_of(v: Option<&SdlValue>) -> (r: Option<RangeBound>)
    ensures
        r == float_bound(match v { Some(x) => Some(*x), None => None }),
{
    match v {
        Some(SdlValue::Number { as_float, .. }) => Some(copy_bound(as_float)),
        _ => None,
    }
}

/// The rules a field's directives attach (see [`field_rule_list`]).
pub fn rules_of_field(ds: &Vec<SdlDirective>) -> (r: Vec<ValidationRule>)
    ensures
        r@ == field_rule_list(ds@),
{
    let mut rules: Vec<ValidationRule> = Vec::new();
    match find_directive(ds, "regex") {
        Some(d) => match find_argument(&d.arguments, "pattern") {
            Some(SdlValue::Str(p)) => rules.push(ValidationRule::Regex(p.clone())),
            _ => {},
        },
        None => {},
    }
    assert(rules@ =~= regex_rule(ds@));
    let ghost after_regex = rules@;
    match find_directive(ds, "length") {
        Some(d) => {
            let min = int_bound_of(find_argument(&d.arguments, "min"));
            let max = int_bound_of(find_argument(&d.arguments, "max"));
            if min.is_some() || max.is_some() {
                rules.push(ValidationRule::Length { min, max });
            }
        },
        None => {},
    }
    assert(rules@ =~= after_regex + length_rule(ds@));
    let ghost after_length = rules@;
    match find_directive(ds, "range") {
        Some(d) => {
            let min = float_bound_of(find_argument(&d.arguments, "min"));
            let max = float_bound_of(find_argument(&d.arguments, "max"));
            if min.is_some() || max.is_some() {
                rules.push(ValidationRule::Range { min, max });
            }
        },
        None => {},
    }
    assert(rules@ =~= after_length + range_rule(ds@));
    rules
}

/// Applies what one field adds in the second pass (see [`field_rules`]).
fn apply_field_rules(m: &mut TypeMetadataModel, f: &SdlField)
    ensures
        meta_view(*final(m)) == field_rules(meta_view(*old(m)), *f),
{
    proof {
        reveal_strlit("String");
        reveal_strlit("Int");
        reveal_strlit("Boolean");
        reveal_strlit("ID");
        reveal_strlit("Float");
        reveal_strlit("Int64");
        reveal_strlit("DateTime");
        reveal_strlit("GeoPoint");
        reveal_strlit("Polygon");
        reveal_strlit("MultiPolygon");
    }
    let ghost before = meta_view(*m);
    let t = field_type_name(&f.ty);
    let scalar = same_text(t.as_str(), "String") || same_text(t.as_str(), "Int") || same_text(t.as_str(), "Boolean")
        || same_text(t.as_str(), "ID") || same_text(t.as_str(), "Float") || same_text(t.as_str(), "Int64")
        || same_text(t.as_str(), "DateTime") || same_text(t.as_str(), "GeoPoint") || same_text(t.as_str(), "Polygon")
        || same_text(t.as_str(), "MultiPolygon");
    if !scalar {
        put_entry::<String, Seq<char>>(&mut m.relations, f.name.clone(), t, Ghost(text_fn()));
    }
    let ghost mid = meta_view(*m);
    proof {
        assert(mid =~= (if is_scalar_name(type_name_of(f.ty)) {
            before
        } else {
            MetaView { relations: put(before.relations, f.name@, type_name_of(f.ty)), ..before }
        }));
    }
    let rules = rules_of_field(&f.directives);
    if rules.len() > 0 {
        put_entry::<Vec<ValidationRule>, Seq<ValidationRule>>(&mut m.validate_fields, f.name.clone(), rules, Ghost(rules_fn()));
        proof {
            assert(meta_view(*m) =~= MetaView { validate_fields: put(mid.validate_fields, f.name@, field_rule_list(f.directives@)), ..mid });
        }
    }
}

/// A copy of a list of names.
fn copy_names(v: &Vec<String>) -> (r: Vec<String>)
    ensures
        texts(r@) == texts(v@),
{
    let mut out: Vec<String> = Vec::new();
    let mut i: usize = 0;
    while i < v.len()
        invariant
            i <= v@.len(),
            texts(out@) == texts(v@.take(i as int)),
        decreases v@.len() - i,
    {
        let ghost before = out@;
        out.push(v[i].clone());
        proof {
            assert(out@ =~= before.push(v@[i as int]));
            assert(v@.take(i as int + 1) =~= v@.take(i as int).push(v@[i as int]));
            assert(texts(out@) =~= texts(before).push(v@[i as int]@));
            assert(texts(v@.take(i as int + 1)) =~= texts(v@.take(i as int)).push(v@[i as int]@));
        }
        i = i + 1;
    }
    proof {
        assert(v@.take(v@.len() as int) =~= v@);
    }
    out
}

fn empty_model(kind: TypeKind) -> (r: TypeMetadataModel)
    ensures
        meta_view(r) == empty_meta(kind_view(kind)),
{
    let r = TypeMetadataModel {
        uniques: Vec::new(),
        inverses: Vec::new(),
        search_fields: Vec::new(),
        cascade_fields: Vec::new(),
        interfaces: Vec::new(),
        validate_fields: Vec::new(),
        relations: Vec::new(),
        vector: None,
        kind,
    };
    assert(meta_view(r) =~= empty_meta(kind_view(kind)));
    r
}

/// The metadata of an object type (see [`object_meta`]).
pub fn object_metadata(defs: &Vec<SdlTypeDef>, owner: &str, fields: &Vec<SdlField>, implements: &Vec<String>) -> (r: TypeMetadataModel)
    ensures
        meta_view(r) == object_meta(defs@, owner@, fields@, implements@),
{
    let mut m = empty_model(TypeKind::Object);
    m.interfaces = copy_names(implements);
    let ghost start = meta_view(m);
    proof {
        assert(start =~= MetaView { interfaces: texts(implements@), ..empty_meta(KindView::Object) });
        assert(fields@.take(0) =~= Seq::<SdlField>::empty());
    }
    let mut i: usize = 0;
    while i < fields.len()
        invariant
            i <= fields@.len(),
            meta_view(m) == first_pass(defs@, owner@, start, fields@.take(i as int)),
        decreases fields@.len() - i,
    {
        proof {
            let t = fields@.take(i as int + 1);
            assert(t.drop_last() =~= fields@.take(i as int));
            assert(t.last() == fields@[i as int]);
        }
        apply_field_facts(defs, owner, &mut m, &fields[i]);
        i = i + 1;
    }
    proof {
        assert(fields@.take(fields@.len() as int) =~= fields@);
    }
    let ghost first = meta_view(m);
    let mut j: usize = 0;
    while j < fields.len()
        invariant
            j <= fields@.len(),
            meta_view(m) == second_pass(first, fields@.take(j as int)),
        decreases fields@.len() - j,
    {
        proof {
            let t = fields@.take(j as int + 1);
            assert(t.drop_last() =~= fields@.take(j as int));
            assert(t.last() == fields@[j as int]);
        }
        apply_field_rules(&mut m, &fields[j]);
        j = j + 1;
    }
    proof {
        assert(fields@.take(fields@.len() as int) =~= fields@);
    }
    m
}

/// Whether a type gets no metadata (see [`is_skipped_type`]).
fn skipped_type(name: &str) -> (b: bool)
    ensures
        b == is_skipped_type(name@),
{
    proof {
        reveal_strlit("__");
    }
    same_text(name, "Query") || same_text(name, "Mutation") || same_text(name, "Subscription")
        || crate::launch::has_prefix(name, "__")
}

/// The metadata of every object, interface and union type among the
/// definitions, keyed by type name; a later definition of a name replaces
/// an earlier one in place (see [`spec_type_metadata`]).
pub fn type_metadata(defs: &Vec<SdlTypeDef>) -> (r: Vec<(String, TypeMetadataModel)>)
    ensures
        metadata_view(r@) == spec_type_metadata(defs@),
{
    let mut out: Vec<(String, TypeMetadataModel)> = Vec::new();
    let mut i: usize = 0;
    proof {
        assert(defs@.take(0) =~= Seq::<SdlTypeDef>::empty());
        assert(metadata_view(out@) =~= Seq::<(Seq<char>, MetaView)>::empty());
    }
    while i < defs.len()
        invariant
            i <= defs@.len(),
            metadata_view(out@) == metadata_of(defs@, defs@.take(i as int)),
        decreases defs@.len() - i,
    {
        proof {
            let t = defs@.take(i as int + 1);
            assert(t.drop_last() =~= defs@.take(i as int));
            assert(t.last() == defs@[i as int]);
        }
        let d = &defs[i];
        if !skipped_type(d.name.as_str()) {
            match &d.kind {
                SdlKind::Object { fields, implements } => {
                    let m = object_metadata(defs, d.name.as_str(), fields, implements);
                    put_entry::<TypeMetadataModel, MetaView>(&mut out, d.name.clone(), m, Ghost(meta_fn()));
                },
                SdlKind::Interface(_) => {
                    let m = empty_model(TypeKind::Interface);
                    put_entry::<TypeMetadataModel, MetaView>(&mut out, d.name.clone(), m, Ghost(meta_fn()));
                },
                SdlKind::Union(members) => {
                    let m = empty_model(TypeKind::Union(copy_names(members)));
                    put_entry::<TypeMetadataModel, MetaView>(&mut out, d.name.clone(), m, Ghost(meta_fn()));
                },
                _ => {},
            }
        }
        i = i + 1;
    }
    proof {
        assert(defs@.take(defs@.len() as int) =~= defs@);
    }
    out
}

/// No key appears twice in a keyed table.
pub open spec fn keys_distinct<V>(s: Seq<(Seq<char>, V)>) -> bool {
    forall|i: int, j: int| 0 <= i < j < s.len() ==> (#[trigger] s[i]).0 != (#[trigger] s[j]).0
}

/// Storing keeps keys distinct, and the keys after it are the old keys
/// and the stored one.
proof fn lemma_put_distinct<V>(s: Seq<(Seq<char>, V)>, k: Seq<char>, v: V)
    requires
        keys_distinct(s),
    ensures
        keys_distinct(put(s, k, v)),
        forall|i: int| 0 <= i < put(s, k, v).len() ==> (#[trigger] put(s, k, v)[i]).0 == k
            || exists|j: int| 0 <= j < s.len() && put(s, k, v)[i].0 == (#[trigger] s[j]).0,
    decreases s.len(),
{
    let r = put(s, k, v);
    if s.len() == 0 {
    } else if s[0].0 == k {
        assert forall|i: int| 0 <= i < r.len() && (#[trigger] r[i]).0 != k implies exists|j: int|
            0 <= j < s.len() && r[i].0 == (#[trigger] s[j]).0 by {
            assert(r[i] == s[i]);
        }
        assert forall|i: int, j: int| 0 <= i < j < r.len() implies (#[trigger] r[i]).0 != (#[trigger] r[j]).0 by {
            assert(s[i].0 == r[i].0);
            assert(s[j].0 == r[j].0);
        }
    } else {
        let rest = s.drop_first();
        assert(keys_distinct(rest)) by {
            assert forall|i: int, j: int| 0 <= i < j < rest.len() implies (#[trigger] rest[i]).0 != (#[trigger] rest[j]).0 by {
                assert(rest[i] == s[i + 1]);
                assert(rest[j] == s[j + 1]);
            }
        }
        lemma_put_distinct(rest, k, v);
        let tail = put(rest, k, v);
        assert(r == seq![s[0]] + tail);
        assert forall|i: int| 0 <= i < tail.len() implies (#[trigger] tail[i]).0 != s[0].0 by {
            if tail[i].0 != k {
                let j = choose|j: int| 0 <= j < rest.len() && tail[i].0 == (#[trigger] rest[j]).0;
                assert(rest[j] == s[j + 1]);
            }
        }
        assert forall|i: int, j: int| 0 <= i < j < r.len() implies (#[trigger] r[i]).0 != (#[trigger] r[j]).0 by {
            assert(r[j] == tail[j - 1]);
            if i > 0 {
                assert(r[i] == tail[i - 1]);
            }
        }
        assert forall|i: int| 0 <= i < r.len() && (#[trigger] r[i]).0 != k implies exists|j: int|
            0 <= j < s.len() && r[i].0 == (#[trigger] s[j]).0 by {
            if i == 0 {
                assert(r[0] == s[0]);
            } else {
                assert(r[i] == tail[i - 1]);
                let j = choose|j: int| 0 <= j < rest.len() && tail[i - 1].0 == (#[trigger] rest[j]).0;
                assert(rest[j] == s[j + 1]);
            }
        }
    }
}

/// The metadata table names each type once, as a map would.
pub proof fn lemma_type_metadata_keys_distinct(defs: Seq<SdlTypeDef>)
    ensures
        keys_distinct(spec_type_metadata(defs)),
{
    lemma_metadata_of_distinct(defs, defs);
}

proof fn lemma_metadata_of_distinct(defs: Seq<SdlTypeDef>, ds: Seq<SdlTypeDef>)
    ensures
        keys_distinct(metadata_of(defs, ds)),
    decreases ds.len(),
{
    if ds.len() > 0 {
        lemma_metadata_of_distinct(defs, ds.drop_last());
        match definition_meta(defs, ds.last()) {
            Some(m) => {
                lemma_put_distinct(metadata_of(defs, ds.drop_last()), ds.last().name@, m);
            },
            None => {},
        }
    }
}

} // verus!
