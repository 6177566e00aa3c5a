//! Command-line handling shared by the executable: where the configuration
//! file handed to the embedded runtime comes from.
use vstd::prelude::*;
use crate::render::same_text;

verus! {

/// The value of the first `--config=<path>` argument, or the argument that
/// follows the first `--config` / `-c` flag that has one; scanning stops at
/// the first match. The flag reports that the path was given explicitly.
pub open spec fn config_arg(args: Seq<Seq<char>>) -> Option<Seq<char>>
    decreases args.len(),
{
    if args.len() == 0 {
        None
    } else if "--config="@.is_prefix_of(args[0]) {
        Some(args[0].skip(9))
    } else if (args[0] == "--config"@ || args[0] == "-c"@) && args.len() > 1 {
        Some(args[1])
    } else {
        config_arg(args.drop_first())
    }
}

/// The text of each argument.
pub open spec fn arg_texts(args: Seq<String>) -> Seq<Seq<char>> {
    args.map_values(|a: String| a@)
}

/// True when `s` starts with `prefix`.
pub(crate) fn has_prefix(s: &str, prefix: &str) -> (b: bool)
    ensures
        b == prefix@.is_prefix_of(s@),
{
    let n = prefix.unicode_len();
    let m = s.unicode_len();
    if n > m {
        return false;
    }
    let mut i: usize = 0;
    while i < n
        invariant
            n == prefix@.len(),
            m == s@.len(),
            n <= m,
            i <= n,
            forall|j: int| 0 <= j < i ==> prefix@[j] == s@[j],
        decreases n - i,
    {
        if prefix.get_char(i) != s.get_char(i) {
            return false;
        }
        i = i + 1;
    }
    proof {
        assert(s@.subrange(0, n as int) =~= prefix@);
    }
    true
}

/// Finds the configuration path among the raw command-line arguments (see
/// [`config_arg`]); the flag is always `true`, the path having been given
/// explicitly.
pub fn extract_config_path(args: &[String]) -> (r: Option<(String, bool)>)
    ensures
        match config_arg(arg_texts(args@)) {
            Some(p) => r matches Some((path, explicit)) && path@ == p && explicit,
            None => r is None,
        },
{
    proof {
        reveal_strlit("--config=");
        assert(arg_texts(args@).skip(0) =~= arg_texts(args@));
    }
    let mut k: usize = 0;
    while k < args.len()
        invariant
            k <= args@.len(),
            config_arg(arg_texts(args@)) == config_arg(arg_texts(args@).skip(k as int)),
            "--config="@.len() == 9,
        decreases args@.len() - k,
    {
        let ghost rest = arg_texts(args@).skip(k as int);
        proof {
            assert(rest[0] == args@[k as int]@);
            assert(rest.drop_first() =~= arg_texts(args@).skip(k as int + 1));
        }
        let arg = args[k].as_str();
        if has_prefix(arg, "--config=") {
            let len = arg.unicode_len();
            let value = arg.substring_char(9, len);
            proof {
                assert(value@ =~= rest[0].skip(9));
            }
            return Some((value.to_owned(), true));
        }
        if same_text(arg, "--config") || same_text(arg, "-c") {
            if k + 1 < args.len() {
                proof {
                    assert(rest[1] == args@[k as int + 1]@);
                }
                return Some((args[k + 1].clone(), true));
            }
        }
        k = k + 1;
    }
    proof {
        assert(arg_texts(args@).skip(k as int) =~= Seq::<Seq<char>>::empty());
    }
    None
}

/// The configuration path handed to the embedded runtime: the one given on
/// the command line, else `config.toml` when that file exists
/// (`default_exists`), else none.
pub fn runtime_config_handoff_path(args: &[String], default_exists: bool) -> (r: Option<String>)
    ensures
        match config_arg(arg_texts(args@)) {
            Some(p) => r matches Some(path) && path@ == p,
            None => if default_exists { r matches Some(path) && path@ == "config.toml"@ } else { r is None },
        },
{
    match extract_config_path(args) {
        Some((path, _explicit)) => Some(path),
        None => {
            if default_exists {
                Some(String::from_str("config.toml"))
            } else {
                None
            }
        },
    }
}

} // verus!
