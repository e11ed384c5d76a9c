//! Target-file resolution: explicit paths united with the files of a
//! directory scan that glob patterns select, as a sorted set.

use vstd::prelude::*;
use crate::text::chars_of;
use crate::format::string_views;
use vstd::string::StringExecFns;

verus! {

#[verifier::external_type_specification]
#[verifier::external_body]
pub struct ExGlobSet(globset::GlobSet);

#[verifier::external_type_specification]
#[verifier::external_body]
pub struct ExGlobSetBuilder(globset::GlobSetBuilder);

/// Whether `globset::Glob::new` accepts a pattern.
pub uninterp spec fn glob_parses(pattern: Seq<char>) -> bool;

/// Whether a glob pattern, with default options, matches a path.
pub uninterp spec fn glob_matches(pattern: Seq<char>, path: Seq<char>) -> bool;

/// Whether `globset::GlobSetBuilder::build` succeeds on these patterns (it
/// fails only when their compiled form exceeds the matcher's size limits).
pub uninterp spec fn glob_set_builds(patterns: Seq<Seq<char>>) -> bool;

/// The patterns added to a glob set builder, in order.
pub uninterp spec fn builder_patterns(b: globset::GlobSetBuilder) -> Seq<Seq<char>>;

/// The patterns a glob set was built from, in order.
pub uninterp spec fn set_patterns(s: globset::GlobSet) -> Seq<Seq<char>>;

/// Relies on `globset::GlobSetBuilder::new`: a builder with no patterns.
#[verifier::external_body]
fn new_glob_builder() -> (r: globset::GlobSetBuilder)
    ensures
        builder_patterns(r) == Seq::<Seq<char>>::empty(),
{
    globset::GlobSetBuilder::new()
}

/// Relies on `globset::Glob::new`, which parses the pattern, and
/// `globset::GlobSetBuilder::add`, which appends the parsed glob.
#[verifier::external_body]
fn add_glob(builder: &mut globset::GlobSetBuilder, pattern: &str) -> (r: Result<(), String>)
    ensures
        r is Ok <==> glob_parses(pattern@),
        r is Ok ==> builder_patterns(*final(builder)) == builder_patterns(*old(builder)).push(
            pattern@,
        ),
        r is Err ==> *final(builder) == *old(builder),
{
    match globset::Glob::new(pattern) {
        Ok(glob) => {
            builder.add(glob);
            Ok(())
        },
        Err(e) => Err(e.to_string()),
    }
}

/// Relies on `globset::GlobSetBuilder::build`: the set matches with the
/// added globs. Whether it succeeds depends on the patterns alone.
#[verifier::external_body]
fn build_glob_set(builder: &globset::GlobSetBuilder) -> (r: Result<globset::GlobSet, String>)
    ensures
        r is Ok <==> glob_set_builds(builder_patterns(*builder)),
        r is Ok ==> set_patterns(r->Ok_0) == builder_patterns(*builder),
{
    builder.build().map_err(|e| e.to_string())
}

/// Some pattern matches the path.
pub open spec fn matches_any(patterns: Seq<Seq<char>>, path: Seq<char>) -> bool {
    exists|i: int| 0 <= i < patterns.len() && glob_matches(#[trigger] patterns[i], path)
}

/// Relies on `globset::GlobSet::is_match`: true when any glob of the set
/// matches the path.
#[verifier::external_body]
fn glob_set_is_match(set: &globset::GlobSet, path: &str) -> (r: bool)
    ensures
        r == (exists|i: int| 0 <= i < set_patterns(*set).len() && glob_matches(#[trigger] set_patterns(*set)[i], path@)),
{
    set.is_match(path)
}

/// Every pattern parses.
pub open spec fn all_parse(patterns: Seq<Seq<char>>) -> bool {
    forall|i: int| 0 <= i < patterns.len() ==> glob_parses(#[trigger] patterns[i])
}

/// Joins string pieces.
fn concat_all(pieces: &Vec<&str>) -> (r: String)
    ensures
        r@ == pieces@.fold_left(Seq::<char>::empty(), |acc: Seq<char>, p: &str| acc + p@),
{
    let mut out = String::new();
    let mut i: usize = 0;
    while i < pieces.len()
        invariant
            i <= pieces.len(),
            out@ == pieces@.take(i as int).fold_left(
                Seq::<char>::empty(),
                |acc: Seq<char>, p: &str| acc + p@,
            ),
        decreases pieces.len() - i,
    {
        assert(pieces@.take(i + 1).drop_last() =~= pieces@.take(i as int));
        out.append(pieces[i]);
        i = i + 1;
    }
    assert(pieces@.take(i as int) =~= pieces@);
    out
}

/// Compiles the patterns given for `key_name` into one glob set. Fails when
/// a pattern does not parse, naming the first such pattern, or when the set
/// cannot be built; succeeds otherwise.
pub fn build_globset(patterns: &Vec<String>, key_name: &str) -> (r: Result<globset::GlobSet, String>)
    ensures
        r matches Ok(s) ==> set_patterns(s) == string_views(patterns@) && all_parse(
            string_views(patterns@),
        ),
        r is Ok <==> all_parse(string_views(patterns@)) && glob_set_builds(string_views(patterns@)),
{
    let mut builder = new_glob_builder();
    let mut i: usize = 0;
    while i < patterns.len()
        invariant
            i <= patterns.len(),
            builder_patterns(builder) == string_views(patterns@).take(i as int),
            all_parse(string_views(patterns@).take(i as int)),
        decreases patterns.len() - i,
    {
        let pattern = patterns[i].as_str();
        match add_glob(&mut builder, pattern) {
            Ok(()) => {},
            Err(e) => {
                assert(!glob_parses(string_views(patterns@)[i as int]));
                let pieces = vec!["Invalid glob in `", key_name, "`: '", pattern, "' (", e.as_str(), ")"];
                return Err(concat_all(&pieces));
            },
        }
        assert(string_views(patterns@).take(i + 1) =~= string_views(patterns@).take(i as int).push(
            patterns@[i as int]@,
        ));
        i = i + 1;
    }
    assert(string_views(patterns@).take(i as int) =~= string_views(patterns@));
    match build_glob_set(&builder) {
        Ok(set) => Ok(set),
        Err(e) => {
            let pieces = vec!["Failed to build glob set from `", key_name, "`: ", e.as_str()];
            Err(concat_all(&pieces))
        },
    }
}


/// Inclusion pattern that selects every GDScript file when none is given.
pub fn default_inclusion() -> (r: Vec<String>)
    ensures
        string_views(r@) == seq!["**/*.gd"@],
{
    let r = vec![String::from_str("**/*.gd")];
    assert(string_views(r@) =~= seq!["**/*.gd"@]);
    r
}

/// A regular file found under the scanned directory: its full path and its
/// path relative to the directory.
#[derive(Debug)]
pub struct ScannedFile {
    pub path: String,
    pub relative: String,
}

/// The full paths of the scanned files whose relative path some inc
/// pattern matches and no exclusion pattern matches, in scan order.
pub open spec fn selected_paths(entries: Seq<ScannedFile>, inc: Seq<Seq<char>>, exc: Seq<
    Seq<char>,
>) -> Seq<Seq<char>>
    decreases entries.len(),
{
    if entries.len() == 0 {
        seq![]
    } else {
        let e = entries.last();
        selected_paths(entries.drop_last(), inc, exc) + (if matches_any(
            inc,
            e.relative@,
        ) && !matches_any(exc, e.relative@) {
            seq![e.path@]
        } else {
            seq![]
        })
    }
}

/// Keeps the scanned files that the inclusion set matches and the exclusion set
/// does not.
pub fn filter_scanned(
    entries: &Vec<ScannedFile>,
    inc: &globset::GlobSet,
    exc: &globset::GlobSet,
) -> (r: Vec<String>)
    ensures
        string_views(r@) == selected_paths(entries@, set_patterns(*inc), set_patterns(*exc)),
{
    let mut out: Vec<String> = Vec::new();
    let mut i: usize = 0;
    while i < entries.len()
        invariant
            i <= entries.len(),
            string_views(out@) == selected_paths(
                entries@.take(i as int),
                set_patterns(*inc),
                set_patterns(*exc),
            ),
        decreases entries.len() - i,
    {
        let e = &entries[i];
        let ghost before = out@;
        assert(entries@.take(i + 1).drop_last() =~= entries@.take(i as int));
        if glob_set_is_match(inc, e.relative.as_str()) && !glob_set_is_match(
            exc,
            e.relative.as_str(),
        ) {
            out.push(e.path.clone());
        }
        assert(string_views(out@) =~= selected_paths(
            entries@.take(i + 1),
            set_patterns(*inc),
            set_patterns(*exc),
        ));
        i = i + 1;
    }
    assert(entries@.take(i as int) =~= entries@);
    out
}

/// Lexicographic order of character sequences by code point, which is the
/// byte order of their UTF-8 encodings.
pub open spec fn chars_lt(a: Seq<char>, b: Seq<char>) -> bool
    decreases a.len(),
{
    if a.len() == 0 {
        b.len() > 0
    } else if b.len() == 0 {
        false
    } else if a[0] != b[0] {
        a[0] < b[0]
    } else {
        chars_lt(a.drop_first(), b.drop_first())
    }
}

/// Each element comes strictly before the next: sorted, with no duplicate.
pub open spec fn strictly_sorted(v: Seq<Seq<char>>) -> bool {
    forall|i: int, j: int| 0 <= i < j < v.len() ==> chars_lt(#[trigger] v[i], #[trigger] v[j])
}

proof fn lemma_lt_irreflexive(a: Seq<char>)
    ensures
        !chars_lt(a, a),
    decreases a.len(),
{
    if a.len() > 0 {
        lemma_lt_irreflexive(a.drop_first());
    }
}

proof fn lemma_lt_transitive(a: Seq<char>, b: Seq<char>, c: Seq<char>)
    requires
        chars_lt(a, b),
        chars_lt(b, c),
    ensures
        chars_lt(a, c),
    decreases a.len(),
{
    if a.len() > 0 && b.len() > 0 && c.len() > 0 && a[0] == b[0] && b[0] == c[0] {
        lemma_lt_transitive(a.drop_first(), b.drop_first(), c.drop_first());
    }
}

proof fn lemma_lt_total(a: Seq<char>, b: Seq<char>)
    ensures
        a == b || chars_lt(a, b) || chars_lt(b, a),
    decreases a.len(),
{
    if a.len() > 0 && b.len() > 0 && a[0] == b[0] {
        lemma_lt_total(a.drop_first(), b.drop_first());
        if a.drop_first() == b.drop_first() {
            assert(a =~= seq![a[0]] + a.drop_first());
            assert(b =~= seq![b[0]] + b.drop_first());
        }
    } else if a.len() == 0 && b.len() == 0 {
        assert(a =~= b);
    }
}

/// Compares two character vectors: negative, zero or positive as `a` comes
/// before, equals or comes after `b`.
fn compare_chars(a: &Vec<char>, b: &Vec<char>) -> (r: i8)
    ensures
        r < 0 <==> chars_lt(a@, b@),
        r == 0 <==> a@ == b@,
        r > 0 <==> chars_lt(b@, a@),
{
    let mut i: usize = 0;
    proof {
        lemma_lt_irreflexive(a@);
        lemma_lt_total(a@, b@);
        assert(a@.skip(0) =~= a@);
        assert(b@.skip(0) =~= b@);
        assert(a@.take(0) =~= b@.take(0));
    }
    while i < a.len() && i < b.len() && a[i] == b[i]
        invariant
            i <= a.len(),
            i <= b.len(),
            a@.take(i as int) == b@.take(i as int),
            chars_lt(a@, b@) == chars_lt(a@.skip(i as int), b@.skip(i as int)),
            chars_lt(b@, a@) == chars_lt(b@.skip(i as int), a@.skip(i as int)),
        decreases a.len() - i,
    {
        assert(a@.skip(i as int).drop_first() =~= a@.skip(i + 1));
        assert(b@.skip(i as int).drop_first() =~= b@.skip(i + 1));
        assert(a@.take(i + 1) =~= a@.take(i as int).push(a@[i as int]));
        assert(b@.take(i + 1) =~= b@.take(i as int).push(b@[i as int]));
        i = i + 1;
    }
    proof {
        lemma_lt_irreflexive(a@);
        lemma_lt_irreflexive(b@);
    }
    if i < a.len() && i < b.len() {
        proof {
            assert(a@.skip(i as int)[0] == a@[i as int]);
            assert(b@.skip(i as int)[0] == b@[i as int]);
            if a@ == b@ {
                assert(a@[i as int] == b@[i as int]);
            }
        }
        if a[i] < b[i] {
            -1
        } else {
            1
        }
    } else if i < b.len() {
        assert(a@ =~= a@.take(i as int));
        assert(a@.skip(i as int).len() == 0);
        -1
    } else if i < a.len() {
        assert(b@ =~= b@.take(i as int));
        assert(b@.skip(i as int).len() == 0);
        1
    } else {
        assert(a@ =~= a@.take(i as int));
        assert(b@ =~= b@.take(i as int));
        0
    }
}

/// Adds `x` to a strictly sorted list unless it is there already.
fn insert_sorted(set: &mut Vec<String>, keys: &mut Vec<Vec<char>>, x: &String)
    requires
        old(set).len() == old(keys).len(),
        forall|i: int| 0 <= i < old(set).len() ==> old(keys)@[i]@ == old(set)@[i]@,
        strictly_sorted(string_views(old(set)@)),
    ensures
        final(set).len() == final(keys).len(),
        forall|i: int| 0 <= i < final(set).len() ==> final(keys)@[i]@ == final(set)@[i]@,
        strictly_sorted(string_views(final(set)@)),
        forall|y: Seq<char>| string_views(final(set)@).contains(y) <==> (string_views(
            old(set)@,
        ).contains(y) || y == x@),
{
    let k = chars_of(x.as_str());
    let ghost v = string_views(set@);
    let mut p: usize = 0;
    while p < set.len() && compare_chars(&keys[p], &k) < 0
        invariant
            p <= set.len(),
            set.len() == keys.len(),
            set@ == old(set)@,
            keys@ == old(keys)@,
            forall|i: int| 0 <= i < set.len() ==> keys@[i]@ == set@[i]@,
            v == string_views(set@),
            k@ == x@,
            forall|i: int| 0 <= i < p ==> chars_lt(#[trigger] v[i], x@),
        decreases set.len() - p,
    {
        assert(v[p as int] == set@[p as int]@);
        assert(keys@[p as int]@ == v[p as int]);
        p = p + 1;
    }
    if p < set.len() && compare_chars(&keys[p], &k) == 0 {
        assert(v[p as int] == x@);
        assert forall|y: Seq<char>| v.contains(y) <==> (v.contains(y) || y == x@) by {
            if y == x@ {
                assert(v[p as int] == y);
            }
        }
        return;
    }
    proof {
        if p < set.len() {
            assert(v[p as int] == set@[p as int]@);
            assert(keys@[p as int]@ == v[p as int]);
            lemma_lt_total(v[p as int], x@);
            assert(chars_lt(x@, v[p as int]));
        }
    }
    set.insert(p, x.clone());
    keys.insert(p, k);
    let ghost w = string_views(set@);
    assert(w =~= v.insert(p as int, x@));
    assert forall|i: int, j: int| 0 <= i < j < w.len() implies chars_lt(
        #[trigger] w[i],
        #[trigger] w[j],
    ) by {
        if j < p {
        } else if j == p {
        } else if i < p {
            if j - 1 > p {
                assert(chars_lt(v[p as int], v[j - 1]));
                lemma_lt_transitive(x@, v[p as int], v[j - 1]);
            }
            lemma_lt_transitive(v[i], x@, v[j - 1]);
        } else if i == p {
            if j - 1 > p {
                assert(chars_lt(v[p as int], v[j - 1]));
                lemma_lt_transitive(x@, v[p as int], v[j - 1]);
            }
        } else {
            assert(w[i] == v[i - 1]);
            assert(w[j] == v[j - 1]);
        }
    }
    assert forall|i: int| 0 <= i < set.len() implies keys@[i]@ == set@[i]@ by {
        if i < p {
        } else if i == p {
        } else {
            assert(keys@[i] == old(keys)@[i - 1]);
            assert(set@[i] == old(set)@[i - 1]);
        }
    }
    assert forall|y: Seq<char>| w.contains(y) <==> (v.contains(y) || y == x@) by {
        if y == x@ {
            assert(w[p as int] == y);
        }
        if v.contains(y) {
            let i = choose|i: int| 0 <= i < v.len() && v[i] == y;
            if i < p {
                assert(w[i] == y);
            } else {
                assert(w[i + 1] == y);
            }
        }
        if w.contains(y) {
            let i = choose|i: int| 0 <= i < w.len() && w[i] == y;
            if i < p {
                assert(v[i] == y);
            } else if i > p {
                assert(v[i - 1] == y);
            }
        }
    }
}


/// Adds each of `src` to a strictly sorted list.
fn add_all(set: &mut Vec<String>, keys: &mut Vec<Vec<char>>, src: &Vec<String>)
    requires
        old(set).len() == old(keys).len(),
        forall|i: int| 0 <= i < old(set).len() ==> old(keys)@[i]@ == old(set)@[i]@,
        strictly_sorted(string_views(old(set)@)),
    ensures
        final(set).len() == final(keys).len(),
        forall|i: int| 0 <= i < final(set).len() ==> final(keys)@[i]@ == final(set)@[i]@,
        strictly_sorted(string_views(final(set)@)),
        forall|y: Seq<char>| string_views(final(set)@).contains(y) <==> (string_views(
            old(set)@,
        ).contains(y) || string_views(src@).contains(y)),
{
    let ghost start = string_views(set@);
    let ghost sv = string_views(src@);
    let mut i: usize = 0;
    while i < src.len()
        invariant
            i <= src.len(),
            sv == string_views(src@),
            set.len() == keys.len(),
            forall|k: int| 0 <= k < set.len() ==> keys@[k]@ == set@[k]@,
            strictly_sorted(string_views(set@)),
            forall|y: Seq<char>| #[trigger] string_views(set@).contains(y) <==> (start.contains(y)
                || sv.take(i as int).contains(y)),
        decreases src.len() - i,
    {
        let ghost before = string_views(set@);
        assert(forall|y: Seq<char>| #[trigger] before.contains(y) <==> (start.contains(y)
                || sv.take(i as int).contains(y)));
        insert_sorted(set, keys, &src[i]);
        assert(sv.take(i + 1) =~= sv.take(i as int).push(src@[i as int]@));
        assert forall|y: Seq<char>| sv.take(i + 1).contains(y) <==> (sv.take(i as int).contains(y)
            || y == src@[i as int]@) by {
            if y == src@[i as int]@ {
                assert(sv.take(i + 1)[i as int] == y);
            }
            if sv.take(i as int).contains(y) {
                let k = choose|k: int| 0 <= k < i && #[trigger] sv.take(i as int)[k] == y;
                assert(sv.take(i + 1)[k] == y);
            }
            if sv.take(i + 1).contains(y) {
                let k = choose|k: int| 0 <= k < i + 1 && #[trigger] sv.take(i + 1)[k] == y;
                if k < i {
                    assert(sv.take(i as int)[k] == y);
                }
            }
        }
        assert forall|y: Seq<char>| string_views(set@).contains(y) <==> (start.contains(y)
            || sv.take(i + 1).contains(y)) by {
            assert(string_views(set@).contains(y) <==> (before.contains(y) || y == src@[i as int]@));
            assert(before.contains(y) <==> (start.contains(y) || sv.take(i as int).contains(y)));
        }
        i = i + 1;
    }
    assert(sv.take(i as int) =~= sv);
}

/// What a call asks to process: explicit files, and optionally a directory
/// to scan with inclusion and exclusion patterns.
#[derive(Debug)]
pub struct TargetRequest {
    pub files: Vec<String>,
    pub dir: Option<String>,
    pub include_patterns: Option<Vec<String>>,
    pub exclude_patterns: Option<Vec<String>>,
}

/// Error when patterns are given without a directory to scan.
pub open spec fn filters_without_dir_message() -> Seq<char> {
    seq!['`', 'i', 'n', 'c', 'l', 'u', 'd', 'e', '`'] + "/`exclude` can only be used with `dir`"@
}

/// Error when a call that needs files resolves to none.
pub open spec fn nothing_to_process_message() -> Seq<char> {
    "Either `files` or `dir` must resolve to at least one file"@
}

/// Patterns were given without a directory to scan them in.
pub open spec fn filters_without_dir(request: TargetRequest) -> bool {
    request.dir is None && (request.include_patterns is Some || request.exclude_patterns is Some)
}

/// The paths to resolve: the explicit files, then the scan results when a
/// directory was given.
pub open spec fn target_pool(request: TargetRequest, scanned: Seq<String>) -> Seq<Seq<char>> {
    string_views(request.files@) + (if request.dir is Some {
        string_views(scanned)
    } else {
        seq![]
    })
}

fn filters_without_dir_text() -> (r: String)
    ensures
        r@ == filters_without_dir_message(),
{
    let head: Vec<char> = vec!['`', 'i', 'n', 'c', 'l', 'u', 'd', 'e', '`'];
    let s = crate::text::string_of(&head);
    s.concat("/`exclude` can only be used with `dir`")
}

/// Resolves the files a call works on: the explicit files and, when a
/// directory was scanned, the selected scan results, without duplicates and
/// sorted. Patterns without a directory are refused whatever else is given,
/// and when `required` is set an empty result is refused.
pub fn resolve_target_files(request: &TargetRequest, scanned: &Vec<String>, required: bool) -> (r:
    Result<Vec<String>, String>)
    ensures
        filters_without_dir(*request) ==> (r matches Err(e) && e@ == filters_without_dir_message()),
        !filters_without_dir(*request) && required && target_pool(*request, scanned@).len() == 0
            ==> (r matches Err(e) && e@ == nothing_to_process_message()),
        r is Ok <==> !filters_without_dir(*request) && !(required && target_pool(
            *request,
            scanned@,
        ).len() == 0),
        r matches Ok(v) ==> strictly_sorted(string_views(v@)) && (forall|y: Seq<char>|
            string_views(v@).contains(y) <==> target_pool(*request, scanned@).contains(y)),
{
    if request.dir.is_none() && (request.include_patterns.is_some()
        || request.exclude_patterns.is_some()) {
        return Err(filters_without_dir_text());
    }
    let ghost pool = target_pool(*request, scanned@);
    let mut set: Vec<String> = Vec::new();
    let mut keys: Vec<Vec<char>> = Vec::new();
    assert(string_views(set@) =~= Seq::<Seq<char>>::empty());
    add_all(&mut set, &mut keys, &request.files);
    if request.dir.is_some() {
        add_all(&mut set, &mut keys, scanned);
    }
    assert forall|y: Seq<char>| string_views(set@).contains(y) <==> pool.contains(y) by {
        let f = string_views(request.files@);
        let g = if request.dir is Some {
            string_views(scanned@)
        } else {
            seq![]
        };
        assert(pool == f + g);
        if pool.contains(y) {
            let k = choose|k: int| 0 <= k < pool.len() && pool[k] == y;
            if k < f.len() {
                assert(f[k] == y);
            } else {
                assert(g[k - f.len()] == y);
            }
        }
        if f.contains(y) {
            let k = choose|k: int| 0 <= k < f.len() && f[k] == y;
            assert(pool[k] == y);
        }
        if g.contains(y) {
            let k = choose|k: int| 0 <= k < g.len() && g[k] == y;
            assert(pool[k + f.len()] == y);
        }
    }
    if required && set.len() == 0 {
        proof {
            if pool.len() > 0 {
                assert(pool.contains(pool[0]));
                assert(string_views(set@).len() == 0);
            }
        }
        return Err(String::from_str("Either `files` or `dir` must resolve to at least one file"));
    }
    proof {
        if set.len() > 0 {
            assert(string_views(set@).contains(string_views(set@)[0]));
            assert(pool.contains(string_views(set@)[0]));
        }
    }
    Ok(set)
}

/// A resolved target list is canonical: it holds no path twice, and any two
/// resolutions of the same set of paths are the same list in the same order.
pub proof fn target_set_is_canonical(a: Seq<Seq<char>>, b: Seq<Seq<char>>)
    requires
        strictly_sorted(a),
        strictly_sorted(b),
        forall|y: Seq<char>| a.contains(y) <==> b.contains(y),
    ensures
        a == b,
        forall|i: int, j: int| 0 <= i < j < a.len() ==> a[i] != a[j],
    decreases a.len(),
{
    assert forall|i: int, j: int| 0 <= i < j < a.len() implies a[i] != a[j] by {
        lemma_lt_irreflexive(a[i]);
        assert(chars_lt(a[i], a[j]));
    }
    if a.len() == 0 {
        if b.len() > 0 {
            assert(b.contains(b[0]));
        }
        assert(a =~= b);
    } else {
        assert(a.contains(a[0]));
        assert(b.len() > 0);
        assert(b.contains(b[0]));
        let j = choose|j: int| 0 <= j < b.len() && b[j] == a[0];
        let i = choose|i: int| 0 <= i < a.len() && a[i] == b[0];
        if j > 0 {
            assert(chars_lt(b[0], b[j]));
            if i > 0 {
                assert(chars_lt(a[0], a[i]));
                lemma_lt_transitive(a[0], b[0], a[0]);
                lemma_lt_irreflexive(a[0]);
            } else {
                lemma_lt_irreflexive(a[0]);
            }
        }
        assert(a[0] == b[0]);
        let a1 = a.drop_first();
        let b1 = b.drop_first();
        assert forall|y: Seq<char>| a1.contains(y) <==> b1.contains(y) by {
            if a1.contains(y) {
                let k = choose|k: int| 0 <= k < a1.len() && a1[k] == y;
                assert(a[k + 1] == y);
                assert(chars_lt(a[0], a[k + 1]));
                lemma_lt_irreflexive(y);
                assert(b.contains(y));
                let m = choose|m: int| 0 <= m < b.len() && b[m] == y;
                assert(m != 0);
                assert(b1[m - 1] == y);
            }
            if b1.contains(y) {
                let k = choose|k: int| 0 <= k < b1.len() && b1[k] == y;
                assert(b[k + 1] == y);
                assert(chars_lt(b[0], b[k + 1]));
                lemma_lt_irreflexive(y);
                assert(a.contains(y));
                let m = choose|m: int| 0 <= m < a.len() && a[m] == y;
                assert(m != 0);
                assert(a1[m - 1] == y);
            }
        }
        assert forall|p: int, q: int| 0 <= p < q < a1.len() implies chars_lt(
            #[trigger] a1[p],
            #[trigger] a1[q],
        ) by {
            assert(chars_lt(a[p + 1], a[q + 1]));
        }
        assert forall|p: int, q: int| 0 <= p < q < b1.len() implies chars_lt(
            #[trigger] b1[p],
            #[trigger] b1[q],
        ) by {
            assert(chars_lt(b[p + 1], b[q + 1]));
        }
        target_set_is_canonical(a1, b1);
        assert(a =~= seq![a[0]] + a1);
        assert(b =~= seq![b[0]] + b1);
    }
}

} // verus!
