//! The storage interface the operator pipeline reads through, and the
//! catalog metadata shapes the planner consults.
use vstd::prelude::*;
use crate::query_planner::ir::{
    cursor_view, opt_cursor_view, predicate_view, CursorValue, CursorView, EntityId, FilterOp,
    FilterPredicate, PredicateView, QueryValue, SortDirection, ValueView, fields_view,
};

verus! {

/// Schema metadata of one type.
#[derive(Debug, Clone)]
pub struct TypeMeta {
    pub name: String,
    pub uniques: Vec<String>,
}

/// Metadata of one scalar field.
#[derive(Debug, Clone)]
pub struct FieldMeta {
    pub name: String,
    pub indexed: bool,
}

/// Metadata of one relation field.
#[derive(Debug, Clone)]
pub struct RelationMeta {
    pub field: String,
    pub target_type: String,
    pub inverse_field: Option<String>,
}

/// Text index kind of a searchable field.
#[derive(Debug, Clone, Copy, PartialEq, Eq, Structural)]
pub enum SearchStrategy {
    Term,
    Fulltext,
}

/// A searchable field and its index kind.
#[derive(Debug, Clone)]
pub struct SearchFieldMeta {
    pub name: String,
    pub strategy: SearchStrategy,
}

/// The vector-indexed field of a type.
#[derive(Debug, Clone)]
pub struct VectorFieldMeta {
    pub field: String,
}

/// Identity on whose behalf a query runs.
#[derive(Debug, Clone)]
pub struct AuthPrincipal {
    pub subject: String,
}

/// Schema lookups used while planning.
pub trait PlannerCatalog {
    fn type_meta(&self, type_label: &str) -> Option<TypeMeta>;

    fn field_meta(&self, type_label: &str, field_name: &str) -> Option<FieldMeta>;

    fn relation_meta(&self, type_label: &str, field_name: &str) -> Option<RelationMeta>;

    fn unique_fields(&self, type_label: &str) -> Vec<String>;

    fn search_fields(&self, type_label: &str) -> Vec<SearchFieldMeta>;

    fn vector_field(&self, type_label: &str) -> Option<VectorFieldMeta>;
}

/// Storage reads performed by source operators.
///
/// Each read is a function of the stored state: the `spec_*` functions name
/// what a read returns (`Err` carries the storage failure message), and the
/// executable reads return exactly that.
pub trait PlannerRuntime {
    /// Children reached from `parent` through relation `field`, in edge order.
    spec fn spec_related_ids(&self, parent: u64, field: Seq<char>) -> Result<Seq<EntityId>, Seq<char>>;

    /// Parents of the given children through `inverse_field`.
    spec fn spec_reverse_related_ids(
        &self,
        child_type: Seq<char>,
        inverse_field: Seq<char>,
        child_uids: Seq<u64>,
    ) -> Result<Seq<EntityId>, Seq<char>>;

    /// Entities matching a text query on `field`, best match first.
    spec fn spec_text_search(
        &self,
        type_label: Seq<char>,
        field: Seq<char>,
        op: FilterOp,
        query: Seq<char>,
        limit: Option<usize>,
    ) -> Result<Seq<EntityId>, Seq<char>>;

    /// The entities of a type in storage order, from `cursor`, at most `limit`.
    spec fn spec_scan_type(&self, type_label: Seq<char>, cursor: Option<CursorView>, limit: Option<usize>) -> Result<Seq<EntityId>, Seq<char>>;

    /// The entity whose unique `field` holds `value`, if any.
    spec fn spec_lookup_unique(&self, type_label: Seq<char>, field: Seq<char>, value: ValueView) -> Result<Option<EntityId>, Seq<char>>;

    /// The entities of a type in `field` order.
    spec fn spec_ordered_scan(
        &self,
        type_label: Seq<char>,
        field: Seq<char>,
        direction: SortDirection,
        cursor: Option<CursorView>,
        limit: Option<usize>,
    ) -> Result<Seq<EntityId>, Seq<char>>;

    /// As [`PlannerRuntime::spec_ordered_scan`], with `None` when the order
    /// index is absent.
    spec fn spec_ordered_scan_with_fallback(
        &self,
        type_label: Seq<char>,
        field: Seq<char>,
        direction: SortDirection,
        cursor: Option<CursorView>,
        limit: Option<usize>,
    ) -> Result<Option<Seq<EntityId>>, Seq<char>>;

    /// The entities storage finds for a pushed-down predicate; `None` when
    /// it cannot evaluate the predicate.
    spec fn spec_candidate_ids(&self, type_label: Seq<char>, predicate: PredicateView) -> Result<Option<Seq<EntityId>>, Seq<char>>;

    /// The uids of `target_type` entities matching a nested filter, when
    /// storage can answer it directly.
    spec fn spec_nested_candidates(
        &self,
        target_type: Seq<char>,
        filter: Seq<(Seq<char>, ValueView)>,
        uniques: Seq<Seq<char>>,
    ) -> Option<Seq<u64>>;

    fn scan_type(&self, type_label: &str, cursor: Option<&CursorValue>, limit: Option<usize>) -> (r: Result<Vec<EntityId>, String>)
        ensures
            read_view(r) == self.spec_scan_type(type_label@, match cursor { Some(c) => Some(cursor_view(*c)), None => None }, limit),
    ;

    fn lookup_unique(&self, type_label: &str, field: &str, value: &QueryValue) -> (r: Result<Option<EntityId>, String>)
        ensures
            match r {
                Ok(found) => self.spec_lookup_unique(type_label@, field@, value@) == Ok::<Option<EntityId>, Seq<char>>(found),
                Err(e) => self.spec_lookup_unique(type_label@, field@, value@) == Err::<Option<EntityId>, Seq<char>>(e@),
            },
    ;

    fn ordered_scan(
        &self,
        type_label: &str,
        field: &str,
        direction: SortDirection,
        cursor: Option<&CursorValue>,
        limit: Option<usize>,
    ) -> (r: Result<Vec<EntityId>, String>)
        ensures
            read_view(r) == self.spec_ordered_scan(type_label@, field@, direction, match cursor { Some(c) => Some(cursor_view(*c)), None => None }, limit),
    ;

    fn ordered_scan_with_fallback(
        &self,
        type_label: &str,
        field: &str,
        direction: SortDirection,
        cursor: Option<&CursorValue>,
        limit: Option<usize>,
    ) -> (r: Result<Option<Vec<EntityId>>, String>)
        ensures
            optional_read_view(r) == self.spec_ordered_scan_with_fallback(
                type_label@,
                field@,
                direction,
                match cursor { Some(c) => Some(cursor_view(*c)), None => None },
                limit,
            ),
    ;

    fn candidate_ids(&self, type_label: &str, predicate: &FilterPredicate) -> (r: Result<Option<Vec<EntityId>>, String>)
        ensures
            optional_read_view(r) == self.spec_candidate_ids(type_label@, predicate_view(*predicate)),
    ;

    fn nested_candidates(&self, req: &NestedCandidateRequest) -> (r: Option<Vec<u64>>)
        ensures
            match r {
                Some(u) => self.spec_nested_candidates(req.target_type@, fields_view(req.filter@), texts_of(req.uniques@)) == Some(u@),
                None => self.spec_nested_candidates(req.target_type@, fields_view(req.filter@), texts_of(req.uniques@)) is None,
            },
    ;

    /// The stored value of `field` on entity `id`, if it has one.
    spec fn spec_stored_field(&self, id: EntityId, field: Seq<char>) -> Option<ValueView>;

    /// Whether a stored value meets a condition object such as `{"eq": 5}`.
    spec fn spec_eval_condition(&self, stored: Option<ValueView>, condition: ValueView) -> bool;

    fn stored_field(&self, id: &EntityId, field: &str) -> (r: Option<QueryValue>)
        ensures
            stored_view(r) == self.spec_stored_field(*id, field@),
    ;

    fn eval_condition(&self, stored: &Option<QueryValue>, condition: &QueryValue) -> (b: bool)
        ensures
            b == self.spec_eval_condition(stored_view(*stored), condition@),
    ;

    fn related_ids(&self, parent: &EntityId, field: &str) -> (r: Result<Vec<EntityId>, String>)
        ensures
            match r {
                Ok(ids) => self.spec_related_ids(parent.uid, field@) == Ok::<Seq<EntityId>, Seq<char>>(ids@),
                Err(e) => self.spec_related_ids(parent.uid, field@) == Err::<Seq<EntityId>, Seq<char>>(e@),
            },
    ;

    fn reverse_related_ids(&self, child_type: &str, inverse_field: &str, child_ids: &[EntityId]) -> (r: Result<Vec<EntityId>, String>)
        ensures
            match r {
                Ok(ids) => self.spec_reverse_related_ids(child_type@, inverse_field@, uids_of(child_ids@))
                    == Ok::<Seq<EntityId>, Seq<char>>(ids@),
                Err(e) => self.spec_reverse_related_ids(child_type@, inverse_field@, uids_of(child_ids@))
                    == Err::<Seq<EntityId>, Seq<char>>(e@),
            },
    ;

    fn text_search(
        &self,
        type_label: &str,
        field: &str,
        op: FilterOp,
        query: &str,
        limit: Option<usize>,
    ) -> (r: Result<Vec<EntityId>, String>)
        ensures
            match r {
                Ok(ids) => self.spec_text_search(type_label@, field@, op, query@, limit)
                    == Ok::<Seq<EntityId>, Seq<char>>(ids@),
                Err(e) => self.spec_text_search(type_label@, field@, op, query@, limit)
                    == Err::<Seq<EntityId>, Seq<char>>(e@),
            },
    ;
}

/// A nested filter on a related type that storage may answer directly.
pub struct NestedCandidateRequest {
    pub target_type: String,
    pub filter: Vec<(String, QueryValue)>,
    pub uniques: Vec<String>,
}

/// The contents of a list of strings.
pub open spec fn texts_of(v: Seq<String>) -> Seq<Seq<char>> {
    v.map_values(|s: String| s@)
}

/// The content of a storage read.
pub open spec fn read_view(r: Result<Vec<EntityId>, String>) -> Result<Seq<EntityId>, Seq<char>> {
    match r {
        Ok(ids) => Ok(ids@),
        Err(e) => Err(e@),
    }
}

/// The content of a storage read that may not apply.
pub open spec fn optional_read_view(r: Result<Option<Vec<EntityId>>, String>) -> Result<Option<Seq<EntityId>>, Seq<char>> {
    match r {
        Ok(Some(ids)) => Ok(Some(ids@)),
        Ok(None) => Ok(None),
        Err(e) => Err(e@),
    }
}

/// The contents of an optional stored value.
pub open spec fn stored_view(v: Option<QueryValue>) -> Option<ValueView> {
    match v {
        Some(x) => Some(x@),
        None => None,
    }
}

/// The uids of a sequence of ids, in order.
pub open spec fn uids_of(ids: Seq<EntityId>) -> Seq<u64> {
    ids.map_values(|e: EntityId| e.uid)
}

} // verus!
