//! Logical query IR: entity identifiers, field paths and operator tags.
use vstd::prelude::*;
use crate::render::{decimal, decimal_string, digit_char};
use crate::query_planner::operators::filter::{digit_value, digits_value, is_digit, parsed_u64};
use crate::query_planner::plan::CandidateSource;

verus! {

/// The base-10 rendering of `n` is a non-empty run of ASCII digits whose
/// value is `n`.
proof fn lemma_decimal_digits(n: nat)
    ensures
        decimal(n).len() > 0,
        forall|i: int| 0 <= i < decimal(n).len() ==> is_digit(#[trigger] decimal(n)[i]),
        digits_value(decimal(n)) == n,
    decreases n,
{
    if n < 10 {
        assert(digit_value(digit_char(n)) == n);
        assert(decimal(n).drop_last() =~= Seq::<char>::empty());
        assert(digits_value(Seq::<char>::empty()) == 0);
        assert(decimal(n).last() == digit_char(n));
        assert(digits_value(decimal(n)) == digits_value(decimal(n).drop_last()) * 10 + digit_value(decimal(n).last()));
    } else {
        lemma_decimal_digits(n / 10);
        let d = decimal(n);
        assert(d.drop_last() =~= decimal(n / 10));
        assert(digit_value(digit_char(n % 10)) == n % 10);
        assert(d.last() == digit_char(n % 10));
        assert((n / 10) * 10 + n % 10 == n) by (nonlinear_arith);
        assert(digits_value(d) == digits_value(d.drop_last()) * 10 + digit_value(d.last()));
        assert forall|i: int| 0 <= i < d.len() implies is_digit(#[trigger] d[i]) by {
            if i < d.len() - 1 {
                assert(d[i] == decimal(n / 10)[i]);
            }
        }
    }
}

/// An identifier's raw text reads back as its uid, whatever its type.
pub proof fn lemma_raw_parses_back(id: EntityId)
    ensures
        parsed_u64(decimal(id.uid as nat)) == Some(id.uid),
{
    lemma_decimal_digits(id.uid as nat);
    let d = decimal(id.uid as nat);
    assert(is_digit(d[0]));
}


/// Identifier of a stored entity: its numeric uid and, when known, its type.
#[derive(Debug, Clone, PartialEq, Eq, Hash)]
pub struct EntityId {
    pub entity_type: Option<String>,
    pub uid: u64,
}

impl EntityId {
    /// An untyped id for `uid`.
    pub fn new(uid: u64) -> (r: Self)
        ensures
            r.entity_type is None,
            r.uid == uid,
    {
        EntityId { entity_type: None, uid }
    }

    /// An id for `uid` tagged with `entity_type`.
    pub fn typed(entity_type: &str, uid: u64) -> (r: Self)
        ensures
            r.entity_type matches Some(t) && t@ == entity_type@,
            r.uid == uid,
    {
        EntityId { entity_type: Some(String::from_str(entity_type)), uid }
    }

    /// The uid rendered in base 10.
    pub fn raw(&self) -> (s: String)
        ensures
            s@ == decimal(self.uid as nat),
    {
        decimal_string(self.uid)
    }

    /// A copy equal to `self`.
    pub fn duplicate(&self) -> (r: Self)
        ensures
            r == *self,
    {
        let entity_type = match &self.entity_type {
            Some(t) => Some(t.clone()),
            None => None,
        };
        EntityId { entity_type, uid: self.uid }
    }
}

/// The untyped id of `uid`.
pub open spec fn untyped_id(uid: u64) -> EntityId {
    EntityId { entity_type: None, uid }
}

impl From<u64> for EntityId {
    fn from(uid: u64) -> (r: Self) {
        EntityId::new(uid)
    }
}

impl vstd::std_specs::convert::FromSpecImpl<u64> for EntityId {
    open spec fn obeys_from_spec() -> bool {
        true
    }

    open spec fn from_spec(uid: u64) -> Self {
        EntityId { entity_type: None, uid }
    }
}

/// A value flowing through expression evaluation.
#[derive(Debug, PartialEq)]
pub enum QueryValue {
    Null,
    Bool(bool),
    Int(i64),
    /// A double, held as its IEEE-754 bit pattern (`f64::to_bits`).
    Float(u64),
    String(String),
    Enum(String),
    List(Vec<QueryValue>),
    /// Fields by name. A value built by [`crate::query_planner::lowering::canonical`]
    /// holds them in ascending key order, each key once, as a map does.
    Object(Vec<(String, QueryValue)>),
    EntityId(EntityId),
}

/// The mathematical content of a [`QueryValue`]: strings as character
/// sequences, lists and objects as sequences of contents.
pub enum ValueView {
    Null,
    Bool(bool),
    Int(i64),
    Float(u64),
    String(Seq<char>),
    Enum(Seq<char>),
    List(Seq<ValueView>),
    Object(Seq<(Seq<char>, ValueView)>),
    EntityId(EntityId),
}

impl View for QueryValue {
    type V = ValueView;

    open spec fn view(&self) -> ValueView
        decreases self, 1int,
    {
        match self {
            QueryValue::Null => ValueView::Null,
            QueryValue::Bool(b) => ValueView::Bool(*b),
            QueryValue::Int(i) => ValueView::Int(*i),
            QueryValue::Float(f) => ValueView::Float(*f),
            QueryValue::String(s) => ValueView::String(s@),
            QueryValue::Enum(s) => ValueView::Enum(s@),
            QueryValue::List(items) => ValueView::List(list_view(items@)),
            QueryValue::Object(fields) => ValueView::Object(fields_view(fields@)),
            QueryValue::EntityId(e) => ValueView::EntityId(*e),
        }
    }
}

/// The contents of each list item.
pub open spec fn list_view(items: Seq<QueryValue>) -> Seq<ValueView>
    decreases items, 0int,
{
    if items.len() == 0 {
        Seq::empty()
    } else {
        list_view(items.drop_last()).push(items.last().view())
    }
}

/// Each field's name and the contents of its value.
pub open spec fn fields_view(fields: Seq<(String, QueryValue)>) -> Seq<(Seq<char>, ValueView)>
    decreases fields, 0int,
{
    if fields.len() == 0 {
        Seq::empty()
    } else {
        fields_view(fields.drop_last()).push((fields.last().0@, fields.last().1.view()))
    }
}

pub proof fn lemma_list_view(items: Seq<QueryValue>)
    ensures
        list_view(items).len() == items.len(),
        forall|i: int| 0 <= i < items.len() ==> #[trigger] list_view(items)[i] == items[i]@,
    decreases items.len(),
{
    if items.len() > 0 {
        assert(list_view(items) == list_view(items.drop_last()).push(items.last().view()));
        lemma_list_view(items.drop_last());
    } else {
        assert(list_view(items) == Seq::<ValueView>::empty());
    }
}

pub proof fn lemma_fields_view(fields: Seq<(String, QueryValue)>)
    ensures
        fields_view(fields).len() == fields.len(),
        forall|i: int| 0 <= i < fields.len() ==> #[trigger] fields_view(fields)[i] == (fields[i].0@, fields[i].1@),
    decreases fields.len(),
{
    if fields.len() > 0 {
        assert(fields_view(fields) == fields_view(fields.drop_last()).push((fields.last().0@, fields.last().1.view())));
        lemma_fields_view(fields.drop_last());
    } else {
        assert(fields_view(fields) == Seq::<(Seq<char>, ValueView)>::empty());
    }
}

impl QueryValue {
    pub fn as_str(&self) -> (r: Option<&str>)
        ensures
            match *self {
                QueryValue::String(s) => r matches Some(t) && t@ == s@,
                _ => r is None,
            },
    {
        match self {
            QueryValue::String(s) => Some(s.as_str()),
            _ => None,
        }
    }
}

/// A pagination cursor: an entity, a scalar sort value, or a compound key.
#[derive(Debug, PartialEq)]
pub enum CursorValue {
    Entity(EntityId),
    Scalar(QueryValue),
    Compound(Vec<QueryValue>),
}

/// The content of a cursor.
pub enum CursorView {
    Entity(EntityId),
    Scalar(ValueView),
    Compound(Seq<ValueView>),
}

pub open spec fn cursor_view(c: CursorValue) -> CursorView {
    match c {
        CursorValue::Entity(e) => CursorView::Entity(e),
        CursorValue::Scalar(v) => CursorView::Scalar(v@),
        CursorValue::Compound(vs) => CursorView::Compound(list_view(vs@)),
    }
}

/// The content of an optional cursor.
pub open spec fn opt_cursor_view(c: Option<CursorValue>) -> Option<CursorView> {
    match c {
        Some(x) => Some(cursor_view(x)),
        None => None,
    }
}

/// One step of a field path: a named field or a list index.
#[derive(Debug, Clone, PartialEq, Eq, Hash)]
pub enum FieldSegment {
    Field(String),
    Index(usize),
}

/// A dotted/indexed path into an entity's fields (`profile.tags.0`).
#[derive(Debug, Clone, PartialEq, Eq, Hash)]
pub struct FieldPath {
    pub segments: Vec<FieldSegment>,
}

impl FieldPath {
    /// The one-segment path naming `name`.
    pub fn field(name: &str) -> (p: Self)
        ensures
            p.segments@.len() == 1,
            p.segments@[0] matches FieldSegment::Field(n) && n@ == name@,
    {
        let mut segments = Vec::new();
        segments.push(FieldSegment::Field(String::from_str(name)));
        FieldPath { segments }
    }

    /// The field name when the path is exactly one `Field` segment.
    pub fn single(&self) -> (r: Option<&str>)
        ensures
            r matches Some(s) ==> (self.segments@.len() == 1
                && (self.segments@[0] matches FieldSegment::Field(n) && s@ == n@)),
            r is None ==> !(self.segments@.len() == 1 && self.segments@[0] is Field),
    {
        if self.segments.len() == 1 {
            match &self.segments[0] {
                FieldSegment::Field(name) => Some(name.as_str()),
                FieldSegment::Index(_) => None,
            }
        } else {
            None
        }
    }
}

/// The text of one path segment: a field's name, an index in base 10.
pub open spec fn segment_text(seg: FieldSegment) -> Seq<char> {
    match seg {
        FieldSegment::Field(name) => name@,
        FieldSegment::Index(i) => decimal(i as nat),
    }
}

/// Path segments joined with `.`.
pub open spec fn path_text(segs: Seq<FieldSegment>) -> Seq<char>
    decreases segs.len(),
{
    if segs.len() == 0 {
        Seq::empty()
    } else if segs.len() == 1 {
        segment_text(segs[0])
    } else {
        path_text(segs.drop_last()) + "."@ + segment_text(segs.last())
    }
}

/// The text of a path segment's content.
pub open spec fn segment_view_text(seg: SegmentView) -> Seq<char> {
    match seg {
        SegmentView::Field(name) => name,
        SegmentView::Index(i) => decimal(i as nat),
    }
}

/// Path segments joined with `.`.
pub open spec fn segments_text(segs: Seq<SegmentView>) -> Seq<char>
    decreases segs.len(),
{
    if segs.len() == 0 {
        Seq::empty()
    } else if segs.len() == 1 {
        segment_view_text(segs[0])
    } else {
        segments_text(segs.drop_last()) + "."@ + segment_view_text(segs.last())
    }
}

pub proof fn lemma_segments_text(segs: Seq<FieldSegment>)
    ensures
        segments_text(segs.map_values(|s: FieldSegment| segment_view(s))) == path_text(segs),
    decreases segs.len(),
{
    let v = segs.map_values(|s: FieldSegment| segment_view(s));
    if segs.len() > 1 {
        assert(v.drop_last() =~= segs.drop_last().map_values(|s: FieldSegment| segment_view(s)));
        lemma_segments_text(segs.drop_last());
    }
}

impl FieldPath {
    /// The path rendered as its segments joined with `.`.
    pub fn to_string(&self) -> (s: String)
        ensures
            s@ == path_text(self.segments@),
    {
        let mut s = String::new();
        let mut i: usize = 0;
        while i < self.segments.len()
            invariant
                i <= self.segments@.len(),
                s@ == path_text(self.segments@.take(i as int)),
            decreases self.segments@.len() - i,
        {
            proof {
                assert(self.segments@.take(i as int + 1).drop_last() =~= self.segments@.take(i as int));
                assert(self.segments@.take(i as int + 1).last() == self.segments@[i as int]);
                if i == 0 {
                    assert(self.segments@.take(1) =~= seq![self.segments@[0]]);
                }
            }
            if i > 0 {
                s.append(".");
            }
            match &self.segments[i] {
                FieldSegment::Field(name) => s.append(name.as_str()),
                FieldSegment::Index(k) => crate::render::append_decimal(&mut s, *k as u64),
            }
            i = i + 1;
        }
        proof {
            assert(self.segments@.take(self.segments@.len() as int) =~= self.segments@);
        }
        s
    }
}

/// Comparison and search operators of a filter predicate.
#[derive(Debug, Clone, Copy, PartialEq, Eq, Structural)]
pub enum FilterOp {
    Eq,
    Ne,
    Gt,
    Ge,
    Lt,
    Le,
    In,
    Contains,
    AllOfTerms,
    AnyOfTerms,
    AllOfText,
    AnyOfText,
    NearVector,
    Within,
    Intersects,
}

impl FilterOp {
    /// Wire name of the operator.
    pub open spec fn name(self) -> Seq<char> {
        match self {
            FilterOp::Eq => "eq"@,
            FilterOp::Ne => "ne"@,
            FilterOp::Gt => "gt"@,
            FilterOp::Ge => "ge"@,
            FilterOp::Lt => "lt"@,
            FilterOp::Le => "le"@,
            FilterOp::In => "in"@,
            FilterOp::Contains => "contains"@,
            FilterOp::AllOfTerms => "allofterms"@,
            FilterOp::AnyOfTerms => "anyofterms"@,
            FilterOp::AllOfText => "alloftext"@,
            FilterOp::AnyOfText => "anyoftext"@,
            FilterOp::NearVector => "nearVector"@,
            FilterOp::Within => "within"@,
            FilterOp::Intersects => "intersects"@,
        }
    }

    pub fn as_str(&self) -> (s: &'static str)
        ensures
            s@ == self.name(),
    {
        match self {
            FilterOp::Eq => "eq",
            FilterOp::Ne => "ne",
            FilterOp::Gt => "gt",
            FilterOp::Ge => "ge",
            FilterOp::Lt => "lt",
            FilterOp::Le => "le",
            FilterOp::In => "in",
            FilterOp::Contains => "contains",
            FilterOp::AllOfTerms => "allofterms",
            FilterOp::AnyOfTerms => "anyofterms",
            FilterOp::AllOfText => "alloftext",
            FilterOp::AnyOfText => "anyoftext",
            FilterOp::NearVector => "nearVector",
            FilterOp::Within => "within",
            FilterOp::Intersects => "intersects",
        }
    }
}

#[derive(Debug, Clone, Copy, PartialEq, Eq, Structural)]
pub enum SortDirection {
    Asc,
    Desc,
}

/// One ORDER BY key.
#[derive(Debug, Clone, PartialEq)]
pub struct OrderKey {
    pub path: FieldPath,
    pub direction: SortDirection,
}

#[derive(Debug, Clone, Copy, PartialEq, Eq, Structural)]
pub enum AggregateFunction {
    Count,
    Sum,
    Mean,
    Min,
    Max,
}

#[derive(Debug, Clone, Copy, PartialEq, Eq, Structural)]
pub enum ExplainMode {
    Off,
    Text,
    Json,
}

#[derive(Debug, Clone, Copy, PartialEq, Eq, Structural)]
pub enum BinaryOp {
    Add,
    Sub,
    Mul,
    Div,
    Mod,
    And,
    Or,
    Eq,
    Ne,
    Gt,
    Ge,
    Lt,
    Le,
    Contains,
    In,
}

impl BinaryOp {
    /// How the operator is written in the expression syntax.
    pub open spec fn symbol(self) -> Seq<char> {
        match self {
            BinaryOp::Add => "+"@,
            BinaryOp::Sub => "-"@,
            BinaryOp::Mul => "*"@,
            BinaryOp::Div => "/"@,
            BinaryOp::Mod => "%"@,
            BinaryOp::And => "and"@,
            BinaryOp::Or => "or"@,
            BinaryOp::Eq => "=="@,
            BinaryOp::Ne => "!="@,
            BinaryOp::Gt => ">"@,
            BinaryOp::Ge => ">="@,
            BinaryOp::Lt => "<"@,
            BinaryOp::Le => "<="@,
            BinaryOp::Contains => "contains"@,
            BinaryOp::In => "in"@,
        }
    }

    /// The operators that compare two sums.
    pub open spec fn is_comparison(self) -> bool {
        match self {
            BinaryOp::Eq | BinaryOp::Ne | BinaryOp::Gt | BinaryOp::Ge | BinaryOp::Lt | BinaryOp::Le | BinaryOp::Contains
            | BinaryOp::In => true,
            _ => false,
        }
    }

    /// Whether the operator is written as a word (`and`, `or`, `in`,
    /// `contains`) rather than a symbol.
    pub open spec fn is_word(self) -> bool {
        match self {
            BinaryOp::And | BinaryOp::Or | BinaryOp::Contains | BinaryOp::In => true,
            _ => false,
        }
    }
}

#[derive(Debug, Clone, Copy, PartialEq, Eq, Structural)]
pub enum UnaryOp {
    Neg,
    Not,
}

/// The content of a path segment.
pub enum SegmentView {
    Field(Seq<char>),
    Index(usize),
}

pub open spec fn segment_view(seg: FieldSegment) -> SegmentView {
    match seg {
        FieldSegment::Field(name) => SegmentView::Field(name@),
        FieldSegment::Index(i) => SegmentView::Index(i),
    }
}

/// The contents of a path's segments.
pub open spec fn path_view(path: FieldPath) -> Seq<SegmentView> {
    path.segments@.map_values(|seg: FieldSegment| segment_view(seg))
}

/// One comparison of a field against a value.
#[derive(Debug, PartialEq)]
pub struct FilterPredicate {
    pub path: FieldPath,
    pub op: FilterOp,
    pub value: QueryValue,
}

/// The content of a predicate.
pub struct PredicateView {
    pub path: Seq<SegmentView>,
    pub op: FilterOp,
    pub value: ValueView,
}

pub open spec fn predicate_view(p: FilterPredicate) -> PredicateView {
    PredicateView { path: path_view(p.path), op: p.op, value: p.value@ }
}

/// A filter over entities: boolean combinations of predicates, and filters
/// on related entities reached through a relation field.
#[derive(Debug, PartialEq)]
pub enum LogicalFilter {
    And(Vec<LogicalFilter>),
    Or(Vec<LogicalFilter>),
    Not(Box<LogicalFilter>),
    Predicate(FilterPredicate),
    Relation { field: String, target_type: String, filter: Box<LogicalFilter> },
}

/// The content of a [`LogicalFilter`].
pub enum FilterView {
    And(Seq<FilterView>),
    Or(Seq<FilterView>),
    Not(Box<FilterView>),
    Predicate(PredicateView),
    Relation { field: Seq<char>, target_type: Seq<char>, filter: Box<FilterView> },
}

impl View for LogicalFilter {
    type V = FilterView;

    open spec fn view(&self) -> FilterView
        decreases self, 1int,
    {
        match self {
            LogicalFilter::And(parts) => FilterView::And(filters_view(parts@)),
            LogicalFilter::Or(parts) => FilterView::Or(filters_view(parts@)),
            LogicalFilter::Not(inner) => FilterView::Not(Box::new((**inner).view())),
            LogicalFilter::Predicate(p) => FilterView::Predicate(predicate_view(*p)),
            LogicalFilter::Relation { field, target_type, filter } => FilterView::Relation {
                field: field@,
                target_type: target_type@,
                filter: Box::new((**filter).view()),
            },
        }
    }
}

/// The content of each filter.
pub open spec fn filters_view(parts: Seq<LogicalFilter>) -> Seq<FilterView>
    decreases parts, 0int,
{
    if parts.len() == 0 {
        Seq::empty()
    } else {
        filters_view(parts.drop_last()).push(parts.last().view())
    }
}

pub proof fn lemma_filters_view(parts: Seq<LogicalFilter>)
    ensures
        filters_view(parts).len() == parts.len(),
        forall|i: int| 0 <= i < parts.len() ==> #[trigger] filters_view(parts)[i] == parts[i]@,
    decreases parts.len(),
{
    if parts.len() > 0 {
        assert(filters_view(parts) == filters_view(parts.drop_last()).push(parts.last().view()));
        lemma_filters_view(parts.drop_last());
    } else {
        assert(filters_view(parts) == Seq::<FilterView>::empty());
    }
}

/// The predicates reachable through nested conjunctions, in order.
pub open spec fn top_predicates(f: FilterView) -> Seq<PredicateView>
    decreases f, 1int,
{
    match f {
        FilterView::Predicate(p) => seq![p],
        FilterView::And(parts) => parts_predicates(parts),
        _ => Seq::empty(),
    }
}

pub open spec fn parts_predicates(parts: Seq<FilterView>) -> Seq<PredicateView>
    decreases parts, 0int,
{
    if parts.len() == 0 {
        Seq::empty()
    } else {
        parts_predicates(parts.drop_last()) + top_predicates(parts.last())
    }
}

impl LogicalFilter {
    /// True for the empty conjunction, which every entity satisfies.
    pub fn is_empty_conjunction(&self) -> (b: bool)
        ensures
            b == (self@ matches FilterView::And(parts) && parts.len() == 0),
    {
        match self {
            LogicalFilter::And(parts) => {
                proof {
                    lemma_filters_view(parts@);
                }
                parts.len() == 0
            },
            _ => false,
        }
    }

    /// The predicates reachable through nested conjunctions, in order.
    pub fn top_level_predicates(&self) -> (r: Vec<&FilterPredicate>)
        ensures
            r@.map_values(|p: &FilterPredicate| predicate_view(*p)) == top_predicates(self@),
        decreases self,
    {
        let mut out: Vec<&FilterPredicate> = Vec::new();
        match self {
            LogicalFilter::Predicate(p) => {
                out.push(p);
                proof {
                    assert(out@.map_values(|q: &FilterPredicate| predicate_view(*q)) =~= seq![predicate_view(*p)]);
                }
            },
            LogicalFilter::And(parts) => {
                proof {
                    lemma_filters_view(parts@);
                    assert(filters_view(parts@).take(0) =~= Seq::<FilterView>::empty());
                    assert(out@.map_values(|q: &FilterPredicate| predicate_view(*q)) =~= Seq::<PredicateView>::empty());
                }
                let ghost fv = filters_view(parts@);
                let mut i: usize = 0;
                while i < parts.len()
                    invariant
                        *self == LogicalFilter::And(*parts),
                        fv == filters_view(parts@),
                        fv.len() == parts@.len(),
                        forall|j: int| 0 <= j < parts@.len() ==> #[trigger] fv[j] == parts@[j]@,
                        i <= parts@.len(),
                        out@.map_values(|q: &FilterPredicate| predicate_view(*q)) == parts_predicates(fv.take(i as int)),
                    decreases parts@.len() - i,
                {
                    proof {
                        assert(decreases_to!(*self => (*self)->And_0));
                        assert(decreases_to!((*self)->And_0 => parts@));
                        assert(decreases_to!(parts@ => parts@[i as int]));
                    }
                    let inner = parts[i].top_level_predicates();
                    let ghost before = out@;
                    let mut j: usize = 0;
                    while j < inner.len()
                        invariant
                            j <= inner@.len(),
                            out@.map_values(|q: &FilterPredicate| predicate_view(*q))
                                == before.map_values(|q: &FilterPredicate| predicate_view(*q))
                                    + inner@.take(j as int).map_values(|q: &FilterPredicate| predicate_view(*q)),
                        decreases inner@.len() - j,
                    {
                        let ghost prev_out = out@;
                        out.push(inner[j]);
                        proof {
                            assert(out@.map_values(|q: &FilterPredicate| predicate_view(*q))
                                =~= prev_out.map_values(|q: &FilterPredicate| predicate_view(*q)).push(predicate_view(*inner@[j as int])));
                            assert(inner@.take(j as int + 1).map_values(|q: &FilterPredicate| predicate_view(*q))
                                =~= inner@.take(j as int).map_values(|q: &FilterPredicate| predicate_view(*q)).push(predicate_view(*inner@[j as int])));
                            assert(out@.map_values(|q: &FilterPredicate| predicate_view(*q))
                                =~= before.map_values(|q: &FilterPredicate| predicate_view(*q))
                                    + inner@.take(j as int + 1).map_values(|q: &FilterPredicate| predicate_view(*q)));
                        }
                        j = j + 1;
                    }
                    proof {
                        assert(inner@.take(inner@.len() as int) =~= inner@);
                        assert(fv.take(i as int + 1).drop_last() =~= fv.take(i as int));
                        assert(fv.take(i as int + 1).last() == parts@[i as int]@);
                    }
                    i = i + 1;
                }
                proof {
                    assert(fv.take(parts@.len() as int) =~= fv);
                }
            },
            _ => {
                proof {
                    assert(out@.map_values(|q: &FilterPredicate| predicate_view(*q)) =~= Seq::<PredicateView>::empty());
                }
            },
        }
        out
    }
}


/// An aggregate to compute over the matched rows, under an output alias.
#[derive(Debug)]
pub struct AggregateSpec {
    pub function: AggregateFunction,
    pub expr: Option<LogicalExpr>,
    pub alias: String,
}

/// How many rows to return, how many to skip, and where to resume.
#[derive(Debug)]
pub struct Pagination {
    pub first: Option<usize>,
    pub offset: Option<usize>,
    pub after: Option<CursorValue>,
}

impl Default for Pagination {
    fn default() -> (r: Self)
        ensures
            r.first is None,
            r.offset is None,
            r.after is None,
    {
        Pagination { first: None, offset: None, after: None }
    }
}

/// One output field: a stored scalar, a computed expression, or a nested
/// relation query.
#[derive(Debug)]
pub enum ProjectField {
    Scalar { name: String },
    Computed { alias: String, expr: LogicalExpr },
    Relation { name: String, plan: Box<LogicalQuery> },
}

/// The output fields of a query.
#[derive(Debug)]
pub struct Projection {
    pub fields: Vec<ProjectField>,
}

impl Default for Projection {
    fn default() -> (r: Self)
        ensures
            r.fields@.len() == 0,
    {
        Projection { fields: Vec::new() }
    }
}

/// A nested query reached through a relation field.
#[derive(Debug)]
pub struct RelationPlan {
    pub field: String,
    pub query: Box<LogicalQuery>,
}

/// Where a query starts reading.
#[derive(Debug)]
pub enum QueryRoot {
    TypeScan { type_label: String },
    UniqueLookup { type_label: String, field: String, value: QueryValue },
    IdLookup { type_label: String, id: EntityId },
    RelationScan { parent_type: String, parent_id: Option<EntityId>, field: String },
    CandidateSet { type_label: String, source: CandidateSource },
}

/// The type a query root reads: the parent type for a relation scan.
pub open spec fn root_type(root: QueryRoot) -> Seq<char> {
    match root {
        QueryRoot::TypeScan { type_label } => type_label@,
        QueryRoot::UniqueLookup { type_label, .. } => type_label@,
        QueryRoot::IdLookup { type_label, .. } => type_label@,
        QueryRoot::RelationScan { parent_type, .. } => parent_type@,
        QueryRoot::CandidateSet { type_label, .. } => type_label@,
    }
}

impl QueryRoot {
    /// The type this root reads (see [`root_type`]).
    pub fn type_label(&self) -> (s: &str)
        ensures
            s@ == root_type(*self),
    {
        match self {
            QueryRoot::TypeScan { type_label } => type_label.as_str(),
            QueryRoot::UniqueLookup { type_label, .. } => type_label.as_str(),
            QueryRoot::IdLookup { type_label, .. } => type_label.as_str(),
            QueryRoot::RelationScan { parent_type, .. } => parent_type.as_str(),
            QueryRoot::CandidateSet { type_label, .. } => type_label.as_str(),
        }
    }
}

/// An expression over a row: a literal, a field, operators, function calls
/// and nested queries.
#[derive(Debug)]
pub enum LogicalExpr {
    Value(QueryValue),
    Field(FieldPath),
    Binary { left: Box<LogicalExpr>, op: BinaryOp, right: Box<LogicalExpr> },
    Unary { op: UnaryOp, expr: Box<LogicalExpr> },
    Function { name: String, args: Vec<LogicalExpr> },
    Subquery(Box<LogicalQuery>),
}

/// A read: its root, filter, order, pagination, output and aggregates, and
/// whether to explain it.
#[derive(Debug)]
pub struct LogicalQuery {
    pub root: QueryRoot,
    pub filter: Option<LogicalFilter>,
    pub order_by: Vec<OrderKey>,
    pub pagination: Pagination,
    pub projection: Projection,
    pub relations: Vec<RelationPlan>,
    pub aggregates: Vec<AggregateSpec>,
    pub explain: ExplainMode,
}

/// `q` is the bare scan of `type_label`: no filter, order, pagination,
/// projection, relations or aggregates, and no explain.
pub open spec fn is_bare_scan(q: LogicalQuery, type_label: Seq<char>) -> bool {
    &&& q.root matches QueryRoot::TypeScan { type_label: t } && t@ == type_label
    &&& q.filter is None
    &&& q.order_by@.len() == 0
    &&& q.pagination.first is None && q.pagination.offset is None && q.pagination.after is None
    &&& q.projection.fields@.len() == 0
    &&& q.relations@.len() == 0
    &&& q.aggregates@.len() == 0
    &&& q.explain == ExplainMode::Off
}

impl LogicalQuery {
    /// The bare scan of `type_label` (see [`is_bare_scan`]).
    pub fn scan(type_label: &str) -> (q: Self)
        ensures
            is_bare_scan(q, type_label@),
    {
        LogicalQuery {
            root: QueryRoot::TypeScan { type_label: String::from_str(type_label) },
            filter: None,
            order_by: Vec::new(),
            pagination: Pagination::default(),
            projection: Projection::default(),
            relations: Vec::new(),
            aggregates: Vec::new(),
            explain: ExplainMode::Off,
        }
    }
}

/// A fetched entity and its fields, in ascending key order, each key once.
#[derive(Debug)]
pub struct QueryRecord {
    pub id: EntityId,
    pub fields: Vec<(String, QueryValue)>,
}

} // verus!
