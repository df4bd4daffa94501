//! The application's configuration and the state derived from it.

use vstd::prelude::*;
use vstd::string::StringExecFns;
use crate::text::{chars_of, string_of};

verus! {

/// What the application is configured with.
#[derive(Debug, Clone)]
pub struct AppConfig {
    /// The database location, a scheme, a colon and a file name.
    pub db_path: String,
}

/// The database location that is used when none is configured.
pub open spec fn default_db_path() -> Seq<char> {
    "inventorymgmt.db"@
}

impl Default for AppConfig {
    fn default() -> (r: Self)
        ensures
            r.db_path@ == default_db_path(),
    {
        AppConfig { db_path: String::from_str("inventorymgmt.db") }
    }
}

impl AppConfig {
    /// The configuration with the given database location, or with the
    /// default one where none is given.
    pub fn new(db_path: Option<String>) -> (r: Self)
        ensures
            r.db_path@ == match db_path {
                Some(path) => path@,
                None => default_db_path(),
            },
    {
        match db_path {
            Some(path) => AppConfig { db_path: path },
            None => AppConfig { db_path: String::from_str("inventorymgmt.db") },
        }
    }
}

/// The place of the first colon in `s`, or the length of `s` if it has none.
pub open spec fn first_colon(s: Seq<char>) -> int
    decreases s.len(),
{
    if s.len() == 0 || s[0] == ':' {
        0
    } else {
        1 + first_colon(s.drop_first())
    }
}

/// The second of the parts of `s` that colons separate; nothing if `s` has
/// no colon.
pub open spec fn second_segment(s: Seq<char>) -> Seq<char> {
    let i = first_colon(s);
    if i >= s.len() {
        Seq::empty()
    } else {
        let rest = s.skip(i + 1);
        rest.take(first_colon(rest))
    }
}

fn find_colon(v: &Vec<char>, from: usize) -> (r: usize)
    requires
        from <= v.len(),
    ensures
        from <= r <= v.len(),
        r == from + first_colon(v@.skip(from as int)),
{
    let mut k: usize = from;
    while k < v.len() && v[k] != ':'
        invariant
            from <= k <= v.len(),
            first_colon(v@.skip(from as int)) == (k - from) + first_colon(v@.skip(k as int)),
        decreases v.len() - k,
    {
        proof {
            assert(v@.skip(k as int).drop_first() =~= v@.skip(k as int + 1));
            assert(v@.skip(k as int)[0] == v@[k as int]);
        }
        k += 1;
    }
    proof {
        if k < v.len() {
            assert(v@.skip(k as int)[0] == v@[k as int]);
        }
    }
    k
}

/// The file name in a database location: what stands between its first
/// colon and its second, or its end.
pub fn database_file(config: &AppConfig) -> (r: String)
    ensures
        r@ == second_segment(config.db_path@),
{
    let v = chars_of(config.db_path.as_str());
    let i = find_colon(&v, 0);
    proof {
        assert(v@.skip(0) =~= v@);
    }
    if i >= v.len() {
        return String::new();
    }
    let j = find_colon(&v, i + 1);
    let mut out: Vec<char> = Vec::new();
    let mut k: usize = i + 1;
    while k < j
        invariant
            i + 1 <= k <= j <= v.len(),
            out@ == v@.subrange(i as int + 1, k as int),
        decreases j - k,
    {
        out.push(v[k]);
        proof {
            assert(out@ =~= v@.subrange(i as int + 1, k as int + 1));
        }
        k += 1;
    }
    proof {
        let rest = v@.skip(i as int + 1);
        assert(rest.take(j - (i + 1)) =~= v@.subrange(i as int + 1, j as int));
    }
    string_of(&out)
}

/// The state that the running application shares.
#[derive(Debug, Clone)]
pub struct AppState {
    /// Where the database file lies.
    pub db_path: String,
}

impl AppState {
    /// The state for a database file at `db_path`.
    pub fn new(db_path: String) -> (r: Self)
        ensures
            r.db_path@ == db_path@,
    {
        AppState { db_path }
    }
}

} // verus!
