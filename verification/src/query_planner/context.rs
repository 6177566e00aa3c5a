//! Per-request planning context and the schema facts planning reads.
use vstd::prelude::*;

verus! {

/// The inverse edge of a relation field: `field` on one type is mirrored by
/// `inverse_field` on the type it points at.
#[derive(Debug, Clone)]
pub struct InverseInfo {
    pub field: String,
    pub inverse_field: String,
}

/// What planning knows of one type: its unique fields, its relation fields
/// with the type each points at, and their inverse edges.
#[derive(Debug)]
pub struct QueryTypeMetadata {
    pub uniques: Vec<String>,
    pub relations: Vec<(String, String)>,
    pub inverses: Vec<InverseInfo>,
}

/// The metadata of the first entry for `type_label`.
pub open spec fn meta_of(catalog: Seq<(String, QueryTypeMetadata)>, type_label: Seq<char>) -> Option<QueryTypeMetadata>
    decreases catalog.len(),
{
    if catalog.len() == 0 {
        None
    } else if catalog[0].0@ == type_label {
        Some(catalog[0].1)
    } else {
        meta_of(catalog.drop_first(), type_label)
    }
}

/// The type the first relation entry for `field` points at.
pub open spec fn relation_target(relations: Seq<(String, String)>, field: Seq<char>) -> Option<Seq<char>>
    decreases relations.len(),
{
    if relations.len() == 0 {
        None
    } else if relations[0].0@ == field {
        Some(relations[0].1@)
    } else {
        relation_target(relations.drop_first(), field)
    }
}

/// The inverse field of the first inverse entry for `field`.
pub open spec fn inverse_of(inverses: Seq<InverseInfo>, field: Seq<char>) -> Option<Seq<char>>
    decreases inverses.len(),
{
    if inverses.len() == 0 {
        None
    } else if inverses[0].field@ == field {
        Some(inverses[0].inverse_field@)
    } else {
        inverse_of(inverses.drop_first(), field)
    }
}

/// The unique fields of `type_label` (none for an unknown type).
pub open spec fn uniques_of(catalog: Seq<(String, QueryTypeMetadata)>, type_label: Seq<char>) -> Seq<Seq<char>> {
    match meta_of(catalog, type_label) {
        Some(m) => crate::query_planner::plan::texts_view(m.uniques@),
        None => Seq::empty(),
    }
}

/// Index of the metadata entry [`meta_of`] picks.
pub fn find_meta(catalog: &Vec<(String, QueryTypeMetadata)>, type_label: &str) -> (r: Option<usize>)
    ensures
        match r {
            Some(i) => i < catalog@.len() && meta_of(catalog@, type_label@) == Some(catalog@[i as int].1),
            None => meta_of(catalog@, type_label@) is None,
        },
{
    let mut i: usize = 0;
    proof {
        assert(catalog@.skip(0) =~= catalog@);
    }
    while i < catalog.len()
        invariant
            i <= catalog@.len(),
            meta_of(catalog@, type_label@) == meta_of(catalog@.skip(i as int), type_label@),
        decreases catalog@.len() - i,
    {
        proof {
            assert(catalog@.skip(i as int).drop_first() =~= catalog@.skip(i as int + 1));
            assert(catalog@.skip(i as int)[0] == catalog@[i as int]);
        }
        if crate::render::same_text(catalog[i].0.as_str(), type_label) {
            return Some(i);
        }
        i = i + 1;
    }
    None
}

/// The type relation `field` points at (see [`relation_target`]).
pub fn find_relation<'a>(relations: &'a Vec<(String, String)>, field: &str) -> (r: Option<&'a String>)
    ensures
        match r {
            Some(t) => relation_target(relations@, field@) == Some(t@),
            None => relation_target(relations@, field@) is None,
        },
{
    let mut i: usize = 0;
    proof {
        assert(relations@.skip(0) =~= relations@);
    }
    while i < relations.len()
        invariant
            i <= relations@.len(),
            relation_target(relations@, field@) == relation_target(relations@.skip(i as int), field@),
        decreases relations@.len() - i,
    {
        proof {
            assert(relations@.skip(i as int).drop_first() =~= relations@.skip(i as int + 1));
            assert(relations@.skip(i as int)[0] == relations@[i as int]);
        }
        if crate::render::same_text(relations[i].0.as_str(), field) {
            return Some(&relations[i].1);
        }
        i = i + 1;
    }
    None
}

/// The inverse field of relation `field` (see [`inverse_of`]).
pub fn find_inverse<'a>(inverses: &'a Vec<InverseInfo>, field: &str) -> (r: Option<&'a String>)
    ensures
        match r {
            Some(t) => inverse_of(inverses@, field@) == Some(t@),
            None => inverse_of(inverses@, field@) is None,
        },
{
    let mut i: usize = 0;
    proof {
        assert(inverses@.skip(0) =~= inverses@);
    }
    while i < inverses.len()
        invariant
            i <= inverses@.len(),
            inverse_of(inverses@, field@) == inverse_of(inverses@.skip(i as int), field@),
        decreases inverses@.len() - i,
    {
        proof {
            assert(inverses@.skip(i as int).drop_first() =~= inverses@.skip(i as int + 1));
            assert(inverses@.skip(i as int)[0] == inverses@[i as int]);
        }
        if crate::render::same_text(inverses[i].field.as_str(), field) {
            return Some(&inverses[i].inverse_field);
        }
        i = i + 1;
    }
    None
}

/// What candidate planning knows about the request: the database, the
/// type being planned, its unique fields, and the schema metadata `M` of
/// every type.
pub struct PlanContext<'a, M> {
    pub db_name: &'a str,
    pub type_label: &'a str,
    pub uniques: &'a [String],
    pub metadata: &'a M,
}

impl<'a, M> PlanContext<'a, M> {
    /// The context for planning a nested type: same database and metadata.
    pub fn child(&'a self, type_label: &'a str, uniques: &'a [String]) -> (c: PlanContext<'a, M>)
        ensures
            c.db_name == self.db_name,
            c.type_label == type_label,
            c.uniques == uniques,
            c.metadata == self.metadata,
    {
        PlanContext { db_name: self.db_name, type_label, uniques, metadata: self.metadata }
    }
}

} // verus!
