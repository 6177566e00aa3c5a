//! Which database a request or a subscription addresses. The server looks
//! the relevant header values and JSON fields up and hands them here as
//! [`FieldValue`]s; the choice among them is made here.
use vstd::prelude::*;
use crate::render::same_text;

verus! {

/// A looked-up header or JSON field: missing, a string, or present but
/// something else (a header that is not visible ASCII, a JSON value that
/// is not a string).
#[derive(Debug, Clone, PartialEq, Eq)]
pub enum FieldValue {
    Missing,
    Text(String),
    Other,
}

/// The text of a field that holds a string.
pub open spec fn field_text(f: FieldValue) -> Option<Seq<char>> {
    match f {
        FieldValue::Text(s) => Some(s@),
        _ => None,
    }
}

/// Whether the field holds exactly the string `t`.
pub open spec fn field_is(f: FieldValue, t: Seq<char>) -> bool {
    field_text(f) == Some(t)
}

/// The first of two lookups that found the key (`Option::or`).
pub open spec fn present_or(a: FieldValue, b: FieldValue) -> FieldValue {
    if a is Missing { b } else { a }
}

/// The `NS`, `ns`, `DB` and `db` keys of a JSON object (all missing when
/// the value is not an object).
#[derive(Debug, Clone)]
pub struct Credentials {
    pub upper_ns: FieldValue,
    pub lower_ns: FieldValue,
    pub upper_db: FieldValue,
    pub lower_db: FieldValue,
}

/// What the first text message of a subscription holds, when it is JSON.
#[derive(Debug, Clone)]
pub struct InitialMessage {
    /// Its `type` field.
    pub kind: FieldValue,
    /// Its `method` field.
    pub method: FieldValue,
    /// The keys of its `payload`.
    pub payload: Credentials,
    /// The elements of its `params` array (none when it is not an array).
    pub params: Vec<FieldValue>,
    /// The keys of the first element of its `params` array.
    pub first_param: Credentials,
}

/// The database credentials name: `DB` (else `db`) when that key is a
/// string, else `NS` (else `ns`) when that one is. Of each pair the first
/// key present is read, string or not.
pub open spec fn credentials_database(c: Credentials) -> Option<Seq<char>> {
    match field_text(present_or(c.upper_db, c.lower_db)) {
        Some(d) => Some(d),
        None => field_text(present_or(c.upper_ns, c.lower_ns)),
    }
}

/// The database a first message selects, if any: a `connection_init`
/// names it in its payload; a `use` call in its second parameter, else
/// its first (given two or more); a `signin` call in the credentials of
/// its first parameter.
pub open spec fn message_database(m: InitialMessage) -> Option<Seq<char>> {
    if field_is(m.kind, "connection_init"@) {
        credentials_database(m.payload)
    } else if field_is(m.method, "use"@) {
        if m.params@.len() >= 2 {
            match field_text(m.params@[1]) {
                Some(d) => Some(d),
                None => field_text(m.params@[0]),
            }
        } else {
            None
        }
    } else if field_is(m.method, "signin"@) {
        credentials_database(m.first_param)
    } else {
        None
    }
}

/// `sandbox` is served by the `archondb` database.
pub open spec fn sandboxed(name: Seq<char>) -> Seq<char> {
    if name == "sandbox"@ { "archondb"@ } else { name }
}

/// The database a request's headers address: the first header present
/// among those looked up (in the server's order) when it is text, else
/// `default`; then [`sandboxed`].
pub open spec fn header_database(headers: Seq<FieldValue>) -> Seq<char>
    decreases headers.len(),
{
    if headers.len() == 0 {
        "default"@
    } else if headers[0] is Missing {
        header_database(headers.drop_first())
    } else {
        match field_text(headers[0]) {
            Some(t) => sandboxed(t),
            None => "default"@,
        }
    }
}

/// The database a subscription serves: the one its first message selects,
/// else the one its headers address; then [`sandboxed`]. `first` is `None`
/// when the first message is missing or is not JSON text.
pub open spec fn subscription_database(from_headers: Seq<char>, first: Option<InitialMessage>) -> Seq<char> {
    sandboxed(
        match first {
            Some(m) => match message_database(m) {
                Some(d) => d,
                None => from_headers,
            },
            None => from_headers,
        },
    )
}

fn text_of(f: &FieldValue) -> (r: Option<String>)
    ensures
        match field_text(*f) {
            Some(t) => r matches Some(s) && s@ == t,
            None => r is None,
        },
{
    match f {
        FieldValue::Text(s) => Some(s.clone()),
        _ => None,
    }
}

fn holds_text(f: &FieldValue, t: &str) -> (b: bool)
    ensures
        b == field_is(*f, t@),
{
    match f {
        FieldValue::Text(s) => same_text(s.as_str(), t),
        _ => false,
    }
}

fn first_present<'a>(a: &'a FieldValue, b: &'a FieldValue) -> (r: &'a FieldValue)
    ensures
        *r == present_or(*a, *b),
{
    match a {
        FieldValue::Missing => b,
        _ => a,
    }
}

fn database_in(c: &Credentials) -> (r: Option<String>)
    ensures
        match credentials_database(*c) {
            Some(t) => r matches Some(s) && s@ == t,
            None => r is None,
        },
{
    match text_of(first_present(&c.upper_db, &c.lower_db)) {
        Some(d) => Some(d),
        None => text_of(first_present(&c.upper_ns, &c.lower_ns)),
    }
}

/// The database a first message selects (see [`message_database`]).
pub fn database_in_message(m: &InitialMessage) -> (r: Option<String>)
    ensures
        match message_database(*m) {
            Some(t) => r matches Some(s) && s@ == t,
            None => r is None,
        },
{
    if holds_text(&m.kind, "connection_init") {
        database_in(&m.payload)
    } else if holds_text(&m.method, "use") {
        if m.params.len() >= 2 {
            match text_of(&m.params[1]) {
                Some(d) => Some(d),
                None => text_of(&m.params[0]),
            }
        } else {
            None
        }
    } else if holds_text(&m.method, "signin") {
        database_in(&m.first_param)
    } else {
        None
    }
}

fn sandbox_mapped(name: String) -> (r: String)
    ensures
        r@ == sandboxed(name@),
{
    proof {
        reveal_strlit("archondb");
    }
    if same_text(name.as_str(), "sandbox") {
        String::from_str("archondb")
    } else {
        name
    }
}

/// The database a request's headers address (see [`header_database`]).
pub fn database_from_headers(headers: &Vec<FieldValue>) -> (r: String)
    ensures
        r@ == header_database(headers@),
{
    proof {
        reveal_strlit("default");
        assert(headers@.skip(0) =~= headers@);
    }
    let mut i: usize = 0;
    while i < headers.len()
        invariant
            i <= headers@.len(),
            header_database(headers@) == header_database(headers@.skip(i as int)),
        decreases headers@.len() - i,
    {
        proof {
            assert(headers@.skip(i as int).drop_first() =~= headers@.skip(i + 1));
            assert(headers@.skip(i as int)[0] == headers@[i as int]);
        }
        match &headers[i] {
            FieldValue::Missing => {},
            FieldValue::Text(t) => {
                return sandbox_mapped(t.clone());
            },
            FieldValue::Other => {
                return String::from_str("default");
            },
        }
        i = i + 1;
    }
    proof {
        assert(headers@.skip(i as int).len() == 0);
    }
    String::from_str("default")
}

/// The database a subscription serves (see [`subscription_database`]).
pub fn database_for_subscription(from_headers: &str, first: &Option<InitialMessage>) -> (r: String)
    ensures
        r@ == subscription_database(from_headers@, *first),
{
    let chosen = match first {
        Some(m) => match database_in_message(m) {
            Some(d) => d,
            None => from_headers.to_owned(),
        },
        None => from_headers.to_owned(),
    };
    sandbox_mapped(chosen)
}

} // verus!
