//! Start-up settings: where the configuration and the device registry live,
//! and the TLS paths that must be set when TLS is on.
use vstd::prelude::*;

use crate::text::{chars_of, owned, starts_with, str_eq, str_starts_with, trim, trim_chars};

verus! {

/// The configuration file used when none is given.
pub open spec fn default_config_path() -> Seq<char> {
    "bonsai.toml"@
}

/// The graph database used when none is given.
pub open spec fn default_graph_path() -> Seq<char> {
    "bonsai.db"@
}

/// The configuration named by the command-line arguments (after the program
/// name): the first `--config=VALUE` or `--config VALUE` whose value is not
/// blank; a `--config` takes the next argument as its value either way.
pub open spec fn config_from_args(args: Seq<Seq<char>>) -> Option<Seq<char>>
    decreases args.len(),
{
    if args.len() == 0 {
        None
    } else {
        let a = args[0];
        if starts_with(a, "--config="@) && trim(a.skip(9)).len() > 0 {
            Some(a.skip(9))
        } else if a == "--config"@ && args.len() > 1 {
            if trim(args[1]).len() > 0 {
                Some(args[1])
            } else {
                config_from_args(args.skip(2))
            }
        } else {
            config_from_args(args.drop_first())
        }
    }
}

/// The configuration path: from the arguments, else the environment setting
/// when not blank, else the default.
pub open spec fn config_path_of(args: Seq<Seq<char>>, env: Option<Seq<char>>) -> Seq<char> {
    match config_from_args(args) {
        Some(p) => p,
        None => match env {
            Some(e) => if trim(e).len() > 0 {
                e
            } else {
                default_config_path()
            },
            None => default_config_path(),
        },
    }
}

fn is_blank(s: &str) -> (r: bool)
    ensures
        r == (trim(s@).len() == 0),
{
    let c = chars_of(s);
    let t = trim_chars(c.as_slice());
    t.len() == 0
}

/// The configuration path, from the arguments after the program name and the
/// value of the configuration environment variable.
pub fn config_path(args: &Vec<String>, env_config: Option<String>) -> (r: String)
    ensures
        r@ == config_path_of(crate::text::views(args@), match env_config {
            Some(e) => Some(e@),
            None => None,
        }),
{
    proof {
        reveal_strlit("--config=");
        reveal_strlit("--config");
    }
    let ghost all = crate::text::views(args@);
    let mut i: usize = 0;
    proof {
        assert(all.skip(0) =~= all);
    }
    while i < args.len()
        invariant
            all == crate::text::views(args@),
            i <= args@.len(),
            config_from_args(all) == config_from_args(all.skip(i as int)),
        decreases args@.len() - i,
    {
        let a = args[i].as_str();
        let ghost rest = all.skip(i as int);
        proof {
            reveal_strlit("--config=");
            reveal_strlit("--config");
            assert(rest[0] == a@);
        }
        if str_starts_with(a, "--config=") {
            let c = chars_of(a);
            let v = crate::text::slice_range(c.as_slice(), 9, c.len());
            proof {
                assert(v@ =~= a@.skip(9));
            }
            let value = crate::text::string_of(v.as_slice());
            if !is_blank(value.as_str()) {
                return value;
            }
        }
        if str_eq(a, "--config") && i + 1 < args.len() {
            proof {
                assert(rest[1] == args@[i + 1]@);
                assert(rest.skip(2) =~= all.skip(i + 2));
            }
            let next = args[i + 1].as_str();
            if !is_blank(next) {
                return owned(next);
            }
            i = i + 2;
        } else {
            proof {
                assert(rest.drop_first() =~= all.skip(i + 1));
                if a@ == "--config"@ {
                    assert(rest.len() == 1);
                }
            }
            i = i + 1;
        }
    }
    proof {
        assert(all.skip(i as int).len() == 0);
    }
    match env_config {
        Some(e) => {
            if !is_blank(e.as_str()) {
                e
            } else {
                owned("bonsai.toml")
            }
        },
        None => owned("bonsai.toml"),
    }
}

/// The parent directory of a path as `std::path::Path::parent` gives it.
pub uninterp spec fn path_parent(p: Seq<char>) -> Option<Seq<char>>;

/// `child` joined onto `dir` as `std::path::Path::join` does it.
pub uninterp spec fn path_join(dir: Seq<char>, child: Seq<char>) -> Seq<char>;

/// `std::path::Path::parent`. The contract names the result; the path
/// grammar of the standard library is not restated.
#[verifier::external_body]
fn parent_of(p: &str) -> (r: Option<String>)
    ensures
        match r {
            Some(s) => path_parent(p@) == Some(s@),
            None => path_parent(p@) is None,
        },
{
    std::path::Path::new(p).parent().map(|q| q.to_string_lossy().into_owned())
}

/// `std::path::Path::join`. The contract names the result; the path grammar
/// of the standard library is not restated.
#[verifier::external_body]
fn join_path(dir: &str, child: &str) -> (r: String)
    ensures
        r@ == path_join(dir@, child@),
{
    std::path::Path::new(dir).join(child).to_string_lossy().into_owned()
}

/// The device registry file beside the graph database: in the database's
/// directory (the current one when it has none), the default database when
/// the path is blank.
pub open spec fn registry_path_of(graph_path: Seq<char>) -> Seq<char> {
    let g = if trim(graph_path).len() == 0 {
        default_graph_path()
    } else {
        graph_path
    };
    let dir = match path_parent(g) {
        Some(d) => if d.len() > 0 {
            d
        } else {
            "."@
        },
        None => "."@,
    };
    path_join(dir, "bonsai-registry.json"@)
}

pub fn registry_path_for_graph_path(graph_path: &str) -> (r: String)
    ensures
        r@ == registry_path_of(graph_path@),
{
    let g: &str = if is_blank(graph_path) {
        "bonsai.db"
    } else {
        graph_path
    };
    let dir = match parent_of(g) {
        Some(d) => if !d.as_str().is_empty() {
            d
        } else {
            owned(".")
        },
        None => owned("."),
    };
    join_path(dir.as_str(), "bonsai-registry.json")
}

/// A TLS path that must be set: its value when not blank, else an error that
/// names the setting.
pub fn required_tls_path<'a>(value: Option<&'a str>, field: &str) -> (r: Result<&'a str, String>)
    ensures
        match value {
            Some(v) if trim(v@).len() > 0 => r == Ok::<&'a str, String>(v),
            _ => r matches Err(e) && e@ == field@ + " is required when runtime.tls.enabled = true"@,
        },
{
    match value {
        Some(v) => {
            if !is_blank(v) {
                return Ok(v);
            }
        },
        None => {},
    }
    let mut e = owned(field);
    e.append(" is required when runtime.tls.enabled = true");
    Err(e)
}

} // verus!
