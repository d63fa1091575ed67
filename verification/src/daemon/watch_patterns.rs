//! The glob patterns of a file watch. A watch always ignores a few
//! directories and files; its own ignore patterns are added to those, and
//! every pattern must be a glob that `globset` accepts before the watch
//! starts. A watch with a bad pattern is refused with globset's message.

use vstd::prelude::*;

verus! {

/// The error `globset` reports for `pattern` where it is no glob (`None`
/// for a glob).
pub uninterp spec fn glob_error_text(pattern: Seq<char>) -> Option<Seq<char>>;

/// The error `globset` reports when it builds a set of the globs
/// `patterns` (`None` when the set builds).
pub uninterp spec fn glob_set_error(patterns: Seq<Seq<char>>) -> Option<Seq<char>>;

/// Parses `pattern` with `globset::Glob::new`. The contract claims that
/// the call fails exactly where `glob_error_text` names an error for the
/// pattern, with that error's `Display` text; both depend on the pattern
/// alone.
#[verifier::external_body]
fn glob_new(pattern: &str) -> (r: Option<String>)
    ensures
        match glob_error_text(pattern@) {
            None => r is None,
            Some(e) => r matches Some(m) && m@ == e,
        },
{
    match globset::Glob::new(pattern) {
        Ok(_) => None,
        Err(e) => Some(e.to_string()),
    }
}

/// Builds a set with `globset::GlobSet::new` from the globs `patterns`
/// (each parsed with `globset::Glob::new`, which the `requires` makes
/// succeed), returning the error's `Display` text where it fails. The
/// contract claims that the outcome is `glob_set_error` of the patterns:
/// both calls depend on their arguments alone.
#[verifier::external_body]
fn glob_set_new(patterns: &Vec<String>) -> (r: Option<String>)
    requires
        first_glob_error(patterns.deep_view()) is None,
    ensures
        match glob_set_error(patterns.deep_view()) {
            None => r is None,
            Some(e) => r matches Some(m) && m@ == e,
        },
{
    match globset::GlobSet::new(patterns.iter().map(|p| globset::Glob::new(p).unwrap())) {
        Ok(_) => None,
        Err(e) => Some(e.to_string()),
    }
}

/// The patterns every watch ignores.
pub open spec fn default_ignore_spec() -> Seq<Seq<char>> {
    seq![
        "**/.git/**"@,
        "**/node_modules/**"@,
        "**/target/**"@,
        "**/__pycache__/**"@,
        "**/*.pyc"@,
        "**/.DS_Store"@,
    ]
}

/// The patterns every watch ignores.
pub fn default_ignore_patterns() -> (r: Vec<String>)
    ensures
        r.deep_view() == default_ignore_spec(),
{
    let r = vec![
        "**/.git/**".to_string(),
        "**/node_modules/**".to_string(),
        "**/target/**".to_string(),
        "**/__pycache__/**".to_string(),
        "**/*.pyc".to_string(),
        "**/.DS_Store".to_string(),
    ];
    assert(r.deep_view() =~= default_ignore_spec());
    r
}

/// The error of the first pattern that is no glob, if any.
pub open spec fn first_glob_error(ps: Seq<Seq<char>>) -> Option<Seq<char>>
    decreases ps.len(),
{
    if ps.len() == 0 {
        None
    } else {
        match glob_error_text(ps[0]) {
            Some(e) => Some(e),
            None => first_glob_error(ps.drop_first()),
        }
    }
}

/// The patterns a watch ignores: the built-in ones, then the user's.
pub open spec fn ignore_patterns_spec(ignore: Option<Seq<Seq<char>>>) -> Seq<Seq<char>> {
    default_ignore_spec() + match ignore {
        Some(g) => g,
        None => Seq::empty(),
    }
}

/// What refuses the set of `ps`: the first pattern that is no glob, else
/// the failure to build the set; `None` when it builds.
pub open spec fn pattern_set_error(ps: Seq<Seq<char>>) -> Option<Seq<char>> {
    match first_glob_error(ps) {
        Some(e) => Some(e),
        None => glob_set_error(ps),
    }
}

/// The outcome of checking a watch: its ignore patterns `ignore` (the
/// built-in ones included) first, then its `paths`.
pub open spec fn watch_check(paths: Seq<Seq<char>>, ignore: Seq<Seq<char>>) -> Result<(), Seq<char>> {
    match pattern_set_error(ignore) {
        Some(e) => Err(e),
        None => match pattern_set_error(paths) {
            Some(e) => Err(e),
            None => Ok(()),
        },
    }
}

/// Compiles `patterns` into a set: the first pattern that is no glob
/// fails it with its error; else the set is built, which may fail too.
fn build_glob_set(patterns: &Vec<String>) -> (r: Result<(), String>)
    ensures
        match pattern_set_error(patterns.deep_view()) {
            Some(e) => r matches Err(m) && m@ == e,
            None => r is Ok,
        },
{
    let mut i: usize = 0;
    assert(patterns.deep_view().skip(0) =~= patterns.deep_view());
    while i < patterns.len()
        invariant
            i <= patterns@.len(),
            first_glob_error(patterns.deep_view().skip(i as int)) == first_glob_error(patterns.deep_view()),
        decreases patterns.len() - i,
    {
        let ghost rest = patterns.deep_view().skip(i as int);
        assert(rest[0] == patterns@[i as int]@);
        assert(rest.drop_first() =~= patterns.deep_view().skip(i + 1));
        match glob_new(patterns[i].as_str()) {
            None => {},
            Some(e) => {
                return Err(e);
            },
        }
        i = i + 1;
    }
    assert(patterns.deep_view().skip(i as int) =~= Seq::<Seq<char>>::empty());
    match glob_set_new(patterns) {
        None => Ok(()),
        Some(e) => Err(e),
    }
}

/// Checks the patterns of a watch before it starts: first the ignore
/// patterns (the built-in ones, then `ignore`), then the watched `paths`.
/// The first pattern that is no glob refuses the watch with globset's
/// message, as does a set that globset cannot build; else the watch is
/// accepted.
pub fn check_watch_patterns(paths: &Vec<String>, ignore: &Option<Vec<String>>) -> (r: Result<(), String>)
    ensures
        match watch_check(paths.deep_view(), ignore_patterns_spec(match ignore {
            Some(g) => Some(g.deep_view()),
            None => None,
        })) {
            Ok(()) => r is Ok,
            Err(e) => r matches Err(m) && m@ == e,
        },
{
    let mut all_ignore = default_ignore_patterns();
    let ghost defaults = all_ignore.deep_view();
    match ignore {
        Some(g) => {
            let mut i: usize = 0;
            while i < g.len()
                invariant
                    i <= g@.len(),
                    all_ignore.deep_view() == defaults + g.deep_view().take(i as int),
                decreases g.len() - i,
            {
                let ghost before = all_ignore.deep_view();
                let item = g[i].clone();
                assert(item@ == g@[i as int]@);
                all_ignore.push(item);
                assert(all_ignore.deep_view() =~= before.push(g@[i as int]@));
                assert(g.deep_view().take(i + 1) =~= g.deep_view().take(i as int).push(g@[i as int]@));
                i = i + 1;
            }
            assert(g.deep_view().take(g@.len() as int) =~= g.deep_view());
        },
        None => {
            assert(defaults + Seq::<Seq<char>>::empty() =~= defaults);
        },
    }
    match build_glob_set(&all_ignore) {
        Err(e) => {
            return Err(e);
        },
        Ok(()) => {},
    }
    build_glob_set(paths)
}

} // verus!
