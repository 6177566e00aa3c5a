//! Declared call shapes of scalar and aggregate functions: positional
//! parameters (required ones first, then optional ones), an optional
//! variadic tail, and a result kind label. Kinds are descriptive strings;
//! strict typing happens at evaluation time.
use vstd::prelude::*;
use crate::render::decimal;

verus! {

/// One declared parameter of a [`Signature`].
#[derive(Debug, Clone, Copy, PartialEq, Eq)]
pub struct Param {
    pub name: &'static str,
    /// Descriptive kind label ("string", "number", "any", ...).
    pub kind: &'static str,
    /// `false` for parameters introduced by [`Signature::optional`].
    pub required: bool,
}

/// Declared call shape of a function.
#[derive(Debug, Clone, PartialEq, Eq)]
pub struct Signature {
    params: Vec<Param>,
    variadic: bool,
    returns: &'static str,
}

/// What a signature declares: its parameters in order, whether the last one
/// repeats, and the result kind label.
pub struct SignatureView {
    pub params: Seq<Param>,
    pub variadic: bool,
    pub result: Seq<char>,
}

impl View for Signature {
    type V = SignatureView;

    closed spec fn view(&self) -> SignatureView {
        SignatureView { params: self.params@, variadic: self.variadic, result: self.returns@ }
    }
}

/// Number of required parameters.
pub open spec fn required_count(params: Seq<Param>) -> nat {
    params.filter(|p: Param| p.required).len()
}

/// Smallest accepted argument count.
pub open spec fn spec_min_args(sig: SignatureView) -> nat {
    required_count(sig.params)
}

/// Whether `n` arguments fit the declared shape.
pub open spec fn spec_accepts(sig: SignatureView, n: int) -> bool {
    n >= spec_min_args(sig) && (sig.variadic || n <= sig.params.len())
}

/// One call of a [`Signature`] builder method.
pub enum BuilderCall {
    Arg { name: &'static str, kind: &'static str },
    Optional { name: &'static str, kind: &'static str },
    Variadic { kind: &'static str },
    Returning { kind: &'static str },
}

/// What one builder call makes of a signature.
pub open spec fn apply_call(sig: SignatureView, call: BuilderCall) -> SignatureView {
    match call {
        BuilderCall::Arg { name, kind } => SignatureView {
            params: sig.params.push(Param { name, kind, required: true }),
            ..sig
        },
        BuilderCall::Optional { name, kind } => SignatureView {
            params: sig.params.push(Param { name, kind, required: false }),
            ..sig
        },
        BuilderCall::Variadic { .. } => SignatureView { variadic: true, ..sig },
        BuilderCall::Returning { kind } => SignatureView { result: kind@, ..sig },
    }
}

/// A signature after a sequence of builder calls, in order.
pub open spec fn apply_calls(sig: SignatureView, calls: Seq<BuilderCall>) -> SignatureView
    decreases calls.len(),
{
    if calls.len() == 0 {
        sig
    } else {
        apply_call(apply_calls(sig, calls.drop_last()), calls.last())
    }
}

/// The signature [`Signature::new`] makes.
pub open spec fn new_signature() -> SignatureView {
    SignatureView { params: Seq::empty(), variadic: false, result: "any"@ }
}

/// The number of `arg` calls in `calls`.
pub open spec fn arg_count(calls: Seq<BuilderCall>) -> nat {
    calls.filter(|c: BuilderCall| c is Arg).len()
}

/// The number of `optional` calls in `calls`.
pub open spec fn optional_count(calls: Seq<BuilderCall>) -> nat {
    calls.filter(|c: BuilderCall| c is Optional).len()
}

/// The largest accepted argument count: `None` when variadic.
pub open spec fn spec_max_args(sig: SignatureView) -> Option<nat> {
    if sig.variadic { None } else { Some(sig.params.len()) }
}

/// After `Signature::new()` and any sequence of builder calls, the smallest
/// accepted argument count is the number of `arg` calls, and the largest
/// is `None` once `variadic` was called, else the number of `arg` and
/// `optional` calls together; `returning` changes neither.
pub proof fn lemma_arity_of_built_signature(calls: Seq<BuilderCall>)
    ensures
        spec_min_args(apply_calls(new_signature(), calls)) == arg_count(calls),
        spec_max_args(apply_calls(new_signature(), calls)) == if exists|i: int|
            0 <= i < calls.len() && #[trigger] calls[i] is Variadic {
            None
        } else {
            Some(arg_count(calls) + optional_count(calls))
        },
    decreases calls.len(),
{
    let sig = apply_calls(new_signature(), calls);
    if calls.len() == 0 {
        assert(calls.filter(|c: BuilderCall| c is Arg) =~= Seq::<BuilderCall>::empty());
        assert(calls.filter(|c: BuilderCall| c is Optional) =~= Seq::<BuilderCall>::empty());
        assert(new_signature().params.filter(|p: Param| p.required) =~= Seq::<Param>::empty());
    } else {
        let init = calls.drop_last();
        let last = calls.last();
        lemma_arity_of_built_signature(init);
        let prev = apply_calls(new_signature(), init);
        assert(calls =~= init.push(last));
        init.lemma_filter_push(last, |c: BuilderCall| c is Arg);
        init.lemma_filter_push(last, |c: BuilderCall| c is Optional);
        match last {
            BuilderCall::Arg { name, kind } => {
                prev.params.lemma_filter_push(Param { name, kind, required: true }, |p: Param| p.required);
            },
            BuilderCall::Optional { name, kind } => {
                prev.params.lemma_filter_push(Param { name, kind, required: false }, |p: Param| p.required);
            },
            _ => {},
        }
        if exists|i: int| 0 <= i < init.len() && #[trigger] init[i] is Variadic {
            let i = choose|i: int| 0 <= i < init.len() && #[trigger] init[i] is Variadic;
            assert(calls[i] is Variadic);
        }
        if exists|i: int| 0 <= i < calls.len() && #[trigger] calls[i] is Variadic {
            let i = choose|i: int| 0 <= i < calls.len() && #[trigger] calls[i] is Variadic;
            if i < init.len() {
                assert(init[i] is Variadic);
            }
        }
    }
}

impl Default for Signature {
    fn default() -> (r: Self)
        ensures
            r@.params == Seq::<Param>::empty(),
            !r@.variadic,
            r@.result == "any"@,
    {
        Signature { params: Vec::new(), variadic: false, returns: "any" }
    }
}

impl Signature {
    /// No parameters, not variadic, result kind `any`.
    pub fn new() -> (r: Self)
        ensures
            r@.params == Seq::<Param>::empty(),
            !r@.variadic,
            r@.result == "any"@,
            r@ == new_signature(),
    {
        Signature::default()
    }

    /// Appends a required positional parameter.
    pub fn arg(self, name: &'static str, kind: &'static str) -> (r: Self)
        ensures
            r@.params == self@.params.push(Param { name, kind, required: true }),
            r@.variadic == self@.variadic,
            r@.result == self@.result,
            r@ == apply_call(self@, BuilderCall::Arg { name, kind }),
    {
        let mut s = self;
        s.params.push(Param { name, kind, required: true });
        s
    }

    /// Appends an optional parameter (optionals trail required ones).
    pub fn optional(self, name: &'static str, kind: &'static str) -> (r: Self)
        ensures
            r@.params == self@.params.push(Param { name, kind, required: false }),
            r@.variadic == self@.variadic,
            r@.result == self@.result,
            r@ == apply_call(self@, BuilderCall::Optional { name, kind }),
    {
        let mut s = self;
        s.params.push(Param { name, kind, required: false });
        s
    }

    /// Marks the last parameter as accepting trailing repetitions.
    pub fn variadic(self, kind: &'static str) -> (r: Self)
        ensures
            r@.params == self@.params,
            r@.variadic,
            r@.result == self@.result,
            r@ == apply_call(self@, BuilderCall::Variadic { kind }),
    {
        let mut s = self;
        s.variadic = true;
        s
    }

    /// Declares the result kind label.
    pub fn returning(self, kind: &'static str) -> (r: Self)
        ensures
            r@.params == self@.params,
            r@.variadic == self@.variadic,
            r@.result == kind@,
            r@ == apply_call(self@, BuilderCall::Returning { kind }),
    {
        let mut s = self;
        s.returns = kind;
        s
    }

    /// The declared parameters.
    pub fn params(&self) -> (p: &[Param])
        ensures
            p@ == self@.params,
    {
        self.params.as_slice()
    }

    /// The declared result kind label.
    pub fn result_kind(&self) -> (k: &'static str)
        ensures
            k@ == self@.result,
    {
        self.returns
    }

    /// Smallest accepted argument count: the number of required parameters.
    pub fn min_args(&self) -> (n: usize)
        ensures
            n == spec_min_args(self@),
    {
        let mut n: usize = 0;
        let mut i: usize = 0;
        while i < self.params.len()
            invariant
                i <= self.params@.len(),
                n == required_count(self.params@.take(i as int)),
                n <= i,
            decreases self.params@.len() - i,
        {
            proof {
                assert(self.params@.take(i as int + 1) =~= self.params@.take(i as int).push(self.params@[i as int]));
                self.params@.take(i as int).lemma_filter_push(self.params@[i as int], |p: Param| p.required);
            }
            if self.params[i].required {
                n = n + 1;
            }
            i = i + 1;
        }
        proof {
            assert(self.params@.take(i as int) =~= self.params@);
        }
        n
    }

    /// Largest accepted argument count; `None` when variadic.
    pub fn max_args(&self) -> (m: Option<usize>)
        ensures
            m == if self@.variadic { None } else { Some(self@.params.len() as usize) },
            match m {
                Some(k) => spec_max_args(self@) == Some(k as nat),
                None => spec_max_args(self@) is None,
            },
    {
        if self.variadic {
            None
        } else {
            Some(self.params.len())
        }
    }

    /// Whether a call with `n` arguments fits the declared shape.
    pub fn accepts_arity(&self, n: usize) -> (b: bool)
        ensures
            b == spec_accepts(self@, n as int),
    {
        proof {
            assert(self.params@.len() == self.params.len());
        }
        n >= self.min_args() && match self.max_args() {
            None => true,
            Some(max) => n <= max,
        }
    }

    /// Human-readable arity range: `min..max`, or `min..N` when variadic.
    pub fn arity_label(&self) -> (s: String)
        ensures
            s@ == decimal(spec_min_args(self@)) + ".."@ + if self@.variadic {
                "N"@
            } else {
                decimal(self@.params.len())
            },
    {
        proof {
            assert(self.params@.len() == self.params.len());
        }
        let mut s = crate::render::decimal_string(self.min_args() as u64);
        s.append("..");
        match self.max_args() {
            Some(max) => crate::render::append_decimal(&mut s, max as u64),
            None => s.append("N"),
        }
        s
    }
}

} // verus!
