use vstd::prelude::*;
use std::io::Write;

use crate::config::Config;
use crate::entry::{Entry, Kind};
use crate::error::SmeError;

use rayon::iter::IntoParallelRefIterator;
use rayon::iter::ParallelIterator;

verus! {

// ---------------------------------------------------------------------------
// The type predicate
// ---------------------------------------------------------------------------

/// The type predicate: an entry survives when no type constraint is set,
/// when both are set (a contradictory configuration passes everything
/// through), or when the constraint that is set agrees with the entry's kind.
pub open spec fn type_keeps(kind: Kind, file_only: bool, dir_only: bool) -> bool {
    ||| (!file_only && !dir_only)
    ||| (file_only && dir_only)
    ||| (file_only && kind == Kind::File)
    ||| (dir_only && kind == Kind::Dir)
}

/// Decides the type predicate for one entry.
pub fn entry_type_keeps(e: &Entry, file_only: bool, dir_only: bool) -> (r: bool)
    ensures
        r == type_keeps(e.kind, file_only, dir_only),
{
    (!file_only && !dir_only) || (file_only && dir_only) || (file_only && e.kind == Kind::File)
        || (dir_only && e.kind == Kind::Dir)
}

/// A configuration with no type constraint keeps every entry.
pub proof fn lemma_no_type_constraint_keeps(kind: Kind)
    ensures
        type_keeps(kind, false, false),
{
}

/// Contradictory type constraints are equivalent to no type constraint:
/// both keep every entry.
pub proof fn lemma_contradictory_constraints_keep(kind: Kind)
    ensures
        type_keeps(kind, true, true) == type_keeps(kind, false, false),
{
}

// ---------------------------------------------------------------------------
// The pattern predicate
// ---------------------------------------------------------------------------

/// `needle` occurs somewhere in `hay` as a contiguous substring.
pub open spec fn is_substring(needle: Seq<char>, hay: Seq<char>) -> bool {
    exists|i: int|
        0 <= i <= hay.len() - needle.len() && #[trigger] hay.subrange(i, i + needle.len() as int)
            == needle
}

/// What `regex::Regex::is_match` returns for a pattern compiled from
/// `pattern` and searched anywhere in `text`: a function of the two character
/// sequences alone.
pub uninterp spec fn regex_match(pattern: Seq<char>, text: Seq<char>) -> bool;

/// Whether `regex::Regex::new` accepts `pattern`: a function of the pattern
/// alone, since the default builder limits are fixed.
pub uninterp spec fn regex_compiles(pattern: Seq<char>) -> bool;

/// The regex-mode predicate. A regular expression built from an empty
/// pattern matches every text, at the very least at the empty region that
/// starts it.
pub open spec fn regex_keeps(pattern: Seq<char>, text: Seq<char>) -> bool {
    if pattern.len() == 0 {
        true
    } else {
        regex_match(pattern, text)
    }
}

/// The pattern predicate in either mode.
pub open spec fn pattern_keeps(pattern: Seq<char>, use_regex: bool, path: Seq<char>) -> bool {
    if use_regex {
        regex_keeps(pattern, path)
    } else {
        is_substring(pattern, path)
    }
}

/// An empty pattern keeps every path, in both modes.
pub proof fn lemma_empty_pattern_keeps(use_regex: bool, path: Seq<char>)
    ensures
        pattern_keeps(Seq::<char>::empty(), use_regex, path),
{
    let needle = Seq::<char>::empty();
    assert(path.subrange(0, 0 + needle.len() as int) =~= needle);
}

// ---------------------------------------------------------------------------
// Trusted items: str::contains, regex, rayon
// ---------------------------------------------------------------------------

/// Relies on str::contains: true exactly when the pattern string occurs as a
/// contiguous substring of this string.
#[verifier::external_body]
fn str_contains(hay: &str, needle: &str) -> (r: bool)
    ensures
        r == is_substring(needle@, hay@),
{
    hay.contains(needle)
}

#[verifier::external_type_specification]
#[verifier::external_body]
pub struct ExRegex(regex::Regex);

/// A compiled regular expression together with the pattern it was built
/// from. The only way to obtain one is `regex_compile`, so the compiled
/// expression always belongs to the stored pattern.
pub struct RegexHandle {
    re: regex::Regex,
    pattern: String,
}

impl RegexHandle {
    /// The pattern this handle was compiled from.
    pub closed spec fn pattern_view(self) -> Seq<char> {
        self.pattern@
    }
}

/// Relies on regex::Regex::new: compiles the pattern, succeeding exactly
/// when the pattern compiles — a function of the pattern alone, under the
/// default builder limits — and returning the compiler's message otherwise.
/// The empty pattern always compiles.
#[verifier::external_body]
fn regex_compile(pattern: &str) -> (r: Result<RegexHandle, String>)
    ensures
        r is Ok <==> regex_compiles(pattern@),
        r matches Ok(h) ==> h.pattern_view() == pattern@,
        pattern@.len() == 0 ==> r is Ok,
{
    match regex::Regex::new(pattern) {
        Ok(re) => Ok(RegexHandle { re, pattern: pattern.to_owned() }),
        Err(e) => Err(format!("{}", e)),
    }
}

/// Relies on regex::Regex::is_match: true iff the compiled pattern matches
/// some region of the text (an unanchored search); the result depends on the
/// pattern and the text alone, and an empty pattern matches every text.
#[verifier::external_body]
fn regex_is_match(h: &RegexHandle, text: &str) -> (r: bool)
    ensures
        r == regex_keeps(h.pattern_view(), text@),
        h.pattern_view().len() > 0 ==> r == regex_match(h.pattern_view(), text@),
{
    h.re.is_match(text)
}

/// The entries of `entries` that survive the type predicate, in order.
pub open spec fn type_kept(entries: Seq<Entry>, file_only: bool, dir_only: bool) -> Seq<Entry>
    decreases entries.len(),
{
    if entries.len() == 0 {
        Seq::empty()
    } else {
        let rest = type_kept(entries.drop_last(), file_only, dir_only);
        if type_keeps(entries.last().kind, file_only, dir_only) {
            rest.push(entries.last())
        } else {
            rest
        }
    }
}

/// Relies on rayon's par_iter, filter, cloned and collect: evaluates the
/// predicate on every element in parallel and collects exactly the elements
/// on which it returned true, in their original order.
#[verifier::external_body]
fn par_filter_by_type(entries: &Vec<Entry>, file_only: bool, dir_only: bool) -> (r: Vec<Entry>)
    ensures
        r@ == type_kept(entries@, file_only, dir_only),
{
    entries
        .par_iter()
        .filter(|e| entry_type_keeps(e, file_only, dir_only))
        .cloned()
        .collect()
}

/// Relies on writeln! to standard error: reports one entry that the type
/// predicate rejected, as a line of its own.
#[verifier::external_body]
fn log_ignored(path: &str) {
    let _ = writeln!(std::io::stderr(), "sme: ignored: {}", path);
}

// ---------------------------------------------------------------------------
// The compiled matcher
// ---------------------------------------------------------------------------

/// The pattern of a configuration, prepared once: either the literal
/// substring, or the compiled regular expression.
pub enum Matcher {
    Substring(String),
    Re(RegexHandle),
}

impl Matcher {
    /// The pattern this matcher was prepared from.
    pub open spec fn pattern_view(self) -> Seq<char> {
        match self {
            Matcher::Substring(s) => s@,
            Matcher::Re(h) => h.pattern_view(),
        }
    }

    /// True on the regular-expression form.
    pub open spec fn is_regex(self) -> bool {
        self is Re
    }
}

/// Prepares the configuration's pattern: compiles it when regex mode is on.
/// Substring mode cannot fail; regex mode fails exactly when the pattern
/// does not compile, and that failure is the configuration error.
pub fn compile_matcher(config: &Config) -> (r: Result<Matcher, SmeError>)
    ensures
        r is Ok <==> !config.use_regex || regex_compiles(config.pattern@),
        r matches Ok(m) ==> m.pattern_view() == config.pattern@ && m.is_regex()
            == config.use_regex,
        r matches Err(e) ==> config.use_regex && e.is_pattern_error(),
{
    if config.use_regex {
        match regex_compile(config.pattern.as_str()) {
            Ok(h) => Ok(Matcher::Re(h)),
            Err(msg) => Err(SmeError::InvalidPattern(msg)),
        }
    } else {
        Ok(Matcher::Substring(config.pattern.clone()))
    }
}

/// Decides the pattern predicate for one path.
pub fn matcher_keeps(m: &Matcher, path: &str) -> (r: bool)
    ensures
        r == pattern_keeps(m.pattern_view(), m.is_regex(), path@),
{
    match m {
        Matcher::Substring(needle) => str_contains(path, needle.as_str()),
        Matcher::Re(h) => regex_is_match(h, path),
    }
}

// ---------------------------------------------------------------------------
// The filter stage
// ---------------------------------------------------------------------------

/// The path strings of a sequence of entries, in order.
pub open spec fn paths_of(entries: Seq<Entry>) -> Seq<Seq<char>> {
    entries.map_values(|e: Entry| e.path@)
}

/// The paths of `paths` that survive the pattern predicate, in order.
pub open spec fn pattern_kept(paths: Seq<Seq<char>>, pattern: Seq<char>, use_regex: bool) -> Seq<
    Seq<char>,
>
    decreases paths.len(),
{
    if paths.len() == 0 {
        Seq::empty()
    } else {
        let rest = pattern_kept(paths.drop_last(), pattern, use_regex);
        if pattern_keeps(pattern, use_regex, paths.last()) {
            rest.push(paths.last())
        } else {
            rest
        }
    }
}

/// What the filter stage produces: the paths of the type-surviving entries
/// that also survive the pattern predicate, in the entries' order.
pub open spec fn matched_paths(
    entries: Seq<Entry>,
    pattern: Seq<char>,
    use_regex: bool,
    file_only: bool,
    dir_only: bool,
) -> Seq<Seq<char>> {
    pattern_kept(paths_of(type_kept(entries, file_only, dir_only)), pattern, use_regex)
}

/// Runs the filter stage with an already prepared matcher. The type
/// predicate is evaluated over all entries in parallel; rejected entries are
/// then diagnosed when verbosity is on; the pattern predicate runs
/// sequentially over the survivors.
pub fn filter_entries_with(entries: &Vec<Entry>, config: &Config, m: &Matcher) -> (r: Vec<String>)
    requires
        m.pattern_view() == config.pattern@,
        m.is_regex() == config.use_regex,
    ensures
        r.deep_view() == matched_paths(
            entries@,
            config.pattern@,
            config.use_regex,
            config.file_only,
            config.dir_only,
        ),
{
    let kept = par_filter_by_type(entries, config.file_only, config.dir_only);
    if config.verbose {
        let mut i: usize = 0;
        while i < entries.len()
            invariant
                i <= entries.len(),
            decreases entries.len() - i,
        {
            if !entry_type_keeps(&entries[i], config.file_only, config.dir_only) {
                log_ignored(entries[i].path.as_str());
            }
            i = i + 1;
        }
    }
    let ghost kept_paths = paths_of(kept@);
    let mut out: Vec<String> = Vec::new();
    let mut j: usize = 0;
    while j < kept.len()
        invariant
            j <= kept.len(),
            m.pattern_view() == config.pattern@,
            m.is_regex() == config.use_regex,
            kept_paths == paths_of(kept@),
            out.deep_view() == pattern_kept(
                kept_paths.take(j as int),
                config.pattern@,
                config.use_regex,
            ),
        decreases kept.len() - j,
    {
        let ghost prev = out.deep_view();
        if matcher_keeps(m, kept[j].path.as_str()) {
            out.push(kept[j].path.clone());
            proof {
                assert(out.deep_view() =~= prev.push(kept@[j as int].path@));
            }
        }
        proof {
            let t = kept_paths.take(j + 1);
            assert(t.drop_last() =~= kept_paths.take(j as int));
            assert(t.last() == kept@[j as int].path@);
        }
        j = j + 1;
    }
    proof {
        assert(kept_paths.take(kept@.len() as int) =~= kept_paths);
    }
    out
}

/// The filter stage: prepares the pattern, then keeps exactly the entries
/// that survive both predicates. Fails exactly when regex mode is on and the
/// pattern does not compile, before any entry is looked at.
pub fn filter_entries(entries: &Vec<Entry>, config: &Config) -> (r: Result<Vec<String>, SmeError>)
    ensures
        r is Ok <==> !config.use_regex || regex_compiles(config.pattern@),
        r matches Ok(v) ==> v.deep_view() == matched_paths(
            entries@,
            config.pattern@,
            config.use_regex,
            config.file_only,
            config.dir_only,
        ),
        r matches Err(e) ==> config.use_regex && e.is_pattern_error(),
{
    let m = compile_matcher(config)?;
    Ok(filter_entries_with(entries, config, &m))
}

// ---------------------------------------------------------------------------
// What the filter keeps, element by element
// ---------------------------------------------------------------------------

/// Membership in the type-surviving subsequence.
proof fn lemma_type_kept_membership(
    entries: Seq<Entry>,
    file_only: bool,
    dir_only: bool,
    e: Entry,
)
    ensures
        type_kept(entries, file_only, dir_only).contains(e) <==> entries.contains(e)
            && type_keeps(e.kind, file_only, dir_only),
    decreases entries.len(),
{
    if entries.len() == 0 {
    } else {
        let prefix = entries.drop_last();
        lemma_type_kept_membership(prefix, file_only, dir_only, e);
        assert(entries.contains(e) <==> prefix.contains(e) || entries.last() == e) by {
            if entries.contains(e) {
                let i = choose|i: int| 0 <= i < entries.len() && entries[i] == e;
                if i < entries.len() - 1 {
                    assert(prefix[i] == e);
                }
            }
            if prefix.contains(e) {
                let i = choose|i: int| 0 <= i < prefix.len() && prefix[i] == e;
                assert(entries[i] == e);
            }
            assert(entries.last() == entries[entries.len() - 1]);
        }
        let rest = type_kept(prefix, file_only, dir_only);
        if type_keeps(entries.last().kind, file_only, dir_only) {
            assert(rest.push(entries.last()).contains(e) <==> rest.contains(e) || entries.last()
                == e) by {
                let p = rest.push(entries.last());
                if p.contains(e) {
                    let i = choose|i: int| 0 <= i < p.len() && p[i] == e;
                    if i < rest.len() {
                        assert(rest[i] == e);
                    }
                }
                if rest.contains(e) {
                    let i = choose|i: int| 0 <= i < rest.len() && rest[i] == e;
                    assert(p[i] == e);
                }
                assert(p[p.len() - 1] == entries.last());
            }
        }
    }
}

/// Membership in the pattern-surviving subsequence.
proof fn lemma_pattern_kept_membership(
    paths: Seq<Seq<char>>,
    pattern: Seq<char>,
    use_regex: bool,
    p: Seq<char>,
)
    ensures
        pattern_kept(paths, pattern, use_regex).contains(p) <==> paths.contains(p)
            && pattern_keeps(pattern, use_regex, p),
    decreases paths.len(),
{
    if paths.len() == 0 {
    } else {
        let prefix = paths.drop_last();
        lemma_pattern_kept_membership(prefix, pattern, use_regex, p);
        assert(paths.contains(p) <==> prefix.contains(p) || paths.last() == p) by {
            if paths.contains(p) {
                let i = choose|i: int| 0 <= i < paths.len() && paths[i] == p;
                if i < paths.len() - 1 {
                    assert(prefix[i] == p);
                }
            }
            if prefix.contains(p) {
                let i = choose|i: int| 0 <= i < prefix.len() && prefix[i] == p;
                assert(paths[i] == p);
            }
            assert(paths.last() == paths[paths.len() - 1]);
        }
        let rest = pattern_kept(prefix, pattern, use_regex);
        if pattern_keeps(pattern, use_regex, paths.last()) {
            assert(rest.push(paths.last()).contains(p) <==> rest.contains(p) || paths.last()
                == p) by {
                let q = rest.push(paths.last());
                if q.contains(p) {
                    let i = choose|i: int| 0 <= i < q.len() && q[i] == p;
                    if i < rest.len() {
                        assert(rest[i] == p);
                    }
                }
                if rest.contains(p) {
                    let i = choose|i: int| 0 <= i < rest.len() && rest[i] == p;
                    assert(q[i] == p);
                }
                assert(q[q.len() - 1] == paths.last());
            }
        }
    }
}

/// With no type constraint, the type stage keeps every entry.
pub proof fn lemma_no_constraint_keeps_all(entries: Seq<Entry>)
    ensures
        type_kept(entries, false, false) == entries,
    decreases entries.len(),
{
    if entries.len() > 0 {
        lemma_no_constraint_keeps_all(entries.drop_last());
        assert(entries.drop_last().push(entries.last()) =~= entries);
    }
}

/// Setting both type constraints filters exactly as setting neither: the
/// contradictory configuration passes everything through.
pub proof fn lemma_contradictory_equals_none(
    entries: Seq<Entry>,
    pattern: Seq<char>,
    use_regex: bool,
)
    ensures
        matched_paths(entries, pattern, use_regex, true, true) == matched_paths(
            entries,
            pattern,
            use_regex,
            false,
            false,
        ),
{
    lemma_type_kept_contradictory(entries);
}

proof fn lemma_type_kept_contradictory(entries: Seq<Entry>)
    ensures
        type_kept(entries, true, true) == type_kept(entries, false, false),
    decreases entries.len(),
{
    if entries.len() > 0 {
        lemma_type_kept_contradictory(entries.drop_last());
    }
}

/// An empty pattern keeps every path of the sequence, in both modes.
pub proof fn lemma_empty_pattern_keeps_all(paths: Seq<Seq<char>>, use_regex: bool)
    ensures
        pattern_kept(paths, Seq::<char>::empty(), use_regex) == paths,
    decreases paths.len(),
{
    if paths.len() == 0 {
        assert(pattern_kept(paths, Seq::<char>::empty(), use_regex) =~= paths);
    } else {
        lemma_empty_pattern_keeps(use_regex, paths.last());
        lemma_empty_pattern_keeps_all(paths.drop_last(), use_regex);
        assert(paths.drop_last().push(paths.last()) =~= paths);
    }
}

/// With an empty pattern the filter returns the paths of every
/// type-surviving entry, in both modes.
pub proof fn lemma_empty_pattern_filter(
    entries: Seq<Entry>,
    use_regex: bool,
    file_only: bool,
    dir_only: bool,
)
    ensures
        matched_paths(entries, Seq::<char>::empty(), use_regex, file_only, dir_only) == paths_of(
            type_kept(entries, file_only, dir_only),
        ),
{
    lemma_empty_pattern_keeps_all(paths_of(type_kept(entries, file_only, dir_only)), use_regex);
}

/// The filter keeps exactly the paths of entries that survive the type
/// predicate and whose path string matches the pattern: as a contiguous
/// substring in substring mode, as an unanchored regular-expression match in
/// regex mode.
pub proof fn lemma_filter_characterization(
    entries: Seq<Entry>,
    pattern: Seq<char>,
    use_regex: bool,
    file_only: bool,
    dir_only: bool,
    p: Seq<char>,
)
    ensures
        matched_paths(entries, pattern, use_regex, file_only, dir_only).contains(p) <==> ((exists|
            i: int,
        |
            0 <= i < entries.len() && (#[trigger] entries[i]).path@ == p && type_keeps(
                entries[i].kind,
                file_only,
                dir_only,
            )) && pattern_keeps(pattern, use_regex, p)),
{
    let kept = type_kept(entries, file_only, dir_only);
    let kept_paths = paths_of(kept);
    lemma_pattern_kept_membership(kept_paths, pattern, use_regex, p);
    assert(kept_paths.contains(p) <==> exists|k: int|
        0 <= k < kept.len() && (#[trigger] kept[k]).path@ == p) by {
        if kept_paths.contains(p) {
            let k = choose|k: int| 0 <= k < kept_paths.len() && kept_paths[k] == p;
            assert(kept[k].path@ == p);
        }
        if exists|k: int| 0 <= k < kept.len() && (#[trigger] kept[k]).path@ == p {
            let k = choose|k: int| 0 <= k < kept.len() && (#[trigger] kept[k]).path@ == p;
            assert(kept_paths[k] == p);
        }
    }
    assert((exists|k: int| 0 <= k < kept.len() && (#[trigger] kept[k]).path@ == p) <==> (exists|
        i: int,
    |
        0 <= i < entries.len() && (#[trigger] entries[i]).path@ == p && type_keeps(
            entries[i].kind,
            file_only,
            dir_only,
        ))) by {
        if exists|k: int| 0 <= k < kept.len() && (#[trigger] kept[k]).path@ == p {
            let k = choose|k: int| 0 <= k < kept.len() && (#[trigger] kept[k]).path@ == p;
            let e = kept[k];
            assert(kept.contains(e));
            lemma_type_kept_membership(entries, file_only, dir_only, e);
            let i = choose|i: int| 0 <= i < entries.len() && entries[i] == e;
            assert(entries[i].path@ == p && type_keeps(entries[i].kind, file_only, dir_only));
        }
        if exists|i: int|
            0 <= i < entries.len() && (#[trigger] entries[i]).path@ == p && type_keeps(
                entries[i].kind,
                file_only,
                dir_only,
            ) {
            let i = choose|i: int|
                0 <= i < entries.len() && (#[trigger] entries[i]).path@ == p && type_keeps(
                    entries[i].kind,
                    file_only,
                    dir_only,
                );
            let e = entries[i];
            assert(entries.contains(e));
            lemma_type_kept_membership(entries, file_only, dir_only, e);
            assert(kept.contains(e));
            let k = choose|k: int| 0 <= k < kept.len() && kept[k] == e;
            assert(kept[k].path@ == p);
        }
    }
}

} // verus!
