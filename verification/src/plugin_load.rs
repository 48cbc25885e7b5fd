//! Loading plugin packages into a running Windows PE: which inputs are
//! loaded, skipped or refused, what the bookkeeping files hold, and the
//! summary of a load.
//!
//! Extracting packages, running their scripts and writing files happens
//! at the edge of the program; the decisions and formats are here.
use crate::dependency::RuntimeEnvironment;
use crate::config::{extension, extension_of};
use crate::error::{EliError, ErrorKind};
use crate::kernel::{file_stem, file_stem_of};
use crate::plugin::{package_name_ok, path_views, validate_name};
use crate::text::{
    chars_of, concat, decimal, decimal_chars, digits_value, eq, eq_ignore_ascii_case,
    eq_ignore_case, is_ascii_digit, lines, lines_of, parse_unsigned, string_of, trim, trim_ws,
    views,
};
use vstd::prelude::*;

verus! {

/// What happens to `.7zl` packages, which are meant for LocalBoost.
#[derive(Clone, Copy, Debug, PartialEq, Eq, Structural)]
pub enum LocalBoostHandling {
    Ignore,
    Load,
}

#[derive(Clone, Copy, Debug, PartialEq, Eq, Structural)]
pub struct LoadOptions {
    /// Descend into subdirectories of directory inputs.
    pub recursive: bool,
    /// Packages loaded at once; at least one.
    pub jobs: usize,
    pub local_boost: LocalBoostHandling,
}

impl Default for LoadOptions {
    fn default() -> (r: LoadOptions)
        ensures
            !r.recursive,
            r.jobs == 2,
            r.local_boost == LocalBoostHandling::Ignore,
    {
        LoadOptions { recursive: false, jobs: 2, local_boost: LocalBoostHandling::Ignore }
    }
}

#[derive(Clone, Copy, Debug, PartialEq, Eq, Structural)]
pub enum LoadStatus {
    Loaded,
    LoadedWithLocalBoost,
    SkippedLocalBoost,
}

#[derive(Debug)]
pub struct LoadResult {
    pub path: String,
    pub result: Result<LoadStatus, EliError>,
}

#[derive(Debug)]
pub struct LoadSummary {
    pub results: Vec<LoadResult>,
}

pub open spec fn is_loaded(r: LoadResult) -> bool {
    r.result matches Ok(s) && (s == LoadStatus::Loaded || s == LoadStatus::LoadedWithLocalBoost)
}

pub open spec fn is_skipped(r: LoadResult) -> bool {
    r.result matches Ok(s) && s == LoadStatus::SkippedLocalBoost
}

pub open spec fn is_failed(r: LoadResult) -> bool {
    r.result is Err
}

pub open spec fn count_loaded(rs: Seq<LoadResult>, n: int) -> nat
    decreases n,
{
    if n <= 0 {
        0
    } else {
        count_loaded(rs, n - 1) + if is_loaded(rs[n - 1]) {
            1nat
        } else {
            0nat
        }
    }
}

pub open spec fn count_skipped(rs: Seq<LoadResult>, n: int) -> nat
    decreases n,
{
    if n <= 0 {
        0
    } else {
        count_skipped(rs, n - 1) + if is_skipped(rs[n - 1]) {
            1nat
        } else {
            0nat
        }
    }
}

pub open spec fn count_failed(rs: Seq<LoadResult>, n: int) -> nat
    decreases n,
{
    if n <= 0 {
        0
    } else {
        count_failed(rs, n - 1) + if is_failed(rs[n - 1]) {
            1nat
        } else {
            0nat
        }
    }
}

/// Every result is a success, a skip or a failure, and exactly one.
pub proof fn lemma_load_counts(rs: Seq<LoadResult>, n: int)
    requires
        0 <= n <= rs.len(),
    ensures
        count_loaded(rs, n) + count_skipped(rs, n) + count_failed(rs, n) == n,
        count_failed(rs, n) == 0 <==> forall|k: int| 0 <= k < n ==> !is_failed(#[trigger] rs[k]),
    decreases n,
{
    if n > 0 {
        lemma_load_counts(rs, n - 1);
        let r = rs[n - 1];
        match r.result {
            Ok(s) => {
                match s {
                    LoadStatus::Loaded => {},
                    LoadStatus::LoadedWithLocalBoost => {},
                    LoadStatus::SkippedLocalBoost => {},
                }
            },
            Err(_) => {},
        }
    }
}

/// A summary accounts for every result once.
pub proof fn lemma_summary_partition(s: LoadSummary)
    ensures
        count_loaded(s.results@, s.results@.len() as int) + count_skipped(
            s.results@,
            s.results@.len() as int,
        ) + count_failed(s.results@, s.results@.len() as int) == s.results@.len(),
{
    lemma_load_counts(s.results@, s.results@.len() as int);
}

impl LoadSummary {
    /// Packages loaded, directly or through LocalBoost.
    pub fn succeeded(&self) -> (r: usize)
        ensures
            r == count_loaded(self.results@, self.results@.len() as int),
    {
        let mut n: usize = 0;
        let mut i: usize = 0;
        while i < self.results.len()
            invariant
                i <= self.results@.len(),
                n == count_loaded(self.results@, i as int),
            decreases self.results.len() - i,
        {
            proof {
                lemma_load_counts(self.results@, i as int);
            }
            match &self.results[i].result {
                Ok(LoadStatus::Loaded) => {
                    n = n + 1;
                },
                Ok(LoadStatus::LoadedWithLocalBoost) => {
                    n = n + 1;
                },
                _ => {},
            }
            i = i + 1;
        }
        n
    }

    /// Packages that failed.
    pub fn failed(&self) -> (r: usize)
        ensures
            r == count_failed(self.results@, self.results@.len() as int),
    {
        let mut n: usize = 0;
        let mut i: usize = 0;
        while i < self.results.len()
            invariant
                i <= self.results@.len(),
                n == count_failed(self.results@, i as int),
            decreases self.results.len() - i,
        {
            proof {
                lemma_load_counts(self.results@, i as int);
            }
            if self.results[i].result.is_err() {
                n = n + 1;
            }
            i = i + 1;
        }
        n
    }

    /// LocalBoost packages left alone.
    pub fn skipped(&self) -> (r: usize)
        ensures
            r == count_skipped(self.results@, self.results@.len() as int),
    {
        let mut n: usize = 0;
        let mut i: usize = 0;
        while i < self.results.len()
            invariant
                i <= self.results@.len(),
                n == count_skipped(self.results@, i as int),
            decreases self.results.len() - i,
        {
            proof {
                lemma_load_counts(self.results@, i as int);
            }
            match &self.results[i].result {
                Ok(LoadStatus::SkippedLocalBoost) => {
                    n = n + 1;
                },
                _ => {},
            }
            i = i + 1;
        }
        n
    }

    /// Whether no package failed.
    pub fn is_success(&self) -> (r: bool)
        ensures
            r == forall|k: int| 0 <= k < self.results@.len() ==> !is_failed(#[trigger] self.results@[k]),
    {
        proof {
            lemma_load_counts(self.results@, self.results@.len() as int);
        }
        self.failed() == 0
    }
}

/// What `str::to_lowercase` gives: full Unicode lower case.
pub uninterp spec fn unicode_lowercase(s: Seq<char>) -> Seq<char>;

/// `str::to_lowercase`. Trusted: the result is the Unicode lower case of
/// the text and depends on the text alone; the case mapping itself is not
/// restated here.
#[verifier::external_body]
pub(crate) fn to_lowercase(s: &str) -> (r: String)
    ensures
        r@ == unicode_lowercase(s@),
{
    s.to_lowercase()
}

pub open spec fn local_boost_package(path: Seq<char>) -> bool {
    match extension(path) {
        Some(e) => eq_ignore_case(e, "7zl"@),
        None => false,
    }
}

/// The plugin name a package is loaded under: its file stem, when that is
/// one plain name.
pub open spec fn plugin_name_ok(path: Seq<char>) -> bool {
    package_name_ok(file_stem(path))
}

/// The name of a package to load.
pub fn plugin_name(source: &str) -> (r: Result<String, EliError>)
    ensures
        match r {
            Ok(n) => plugin_name_ok(source@) && n@ == file_stem(source@),
            Err(e) => !plugin_name_ok(source@) && e.kind == ErrorKind::InvalidInput && e.message@
                == "plugin package has an unsafe name: "@ + source@,
        },
{
    let stem = string_of(&file_stem_of(source));
    match validate_name(stem.as_str()) {
        Ok(()) => Ok(stem),
        Err(_) => {
            let m = concat(&chars_of("plugin package has an unsafe name: "), &chars_of(source));
            Err(EliError::new(ErrorKind::InvalidInput, string_of(&m)))
        },
    }
}

/// What a load does with one input package.
#[derive(Clone, Copy, Debug, PartialEq, Eq, Structural)]
pub enum LoadDecision {
    /// A LocalBoost package while LocalBoost packages are ignored.
    Skip,
    /// The package name is not a plain name.
    BadName,
    /// Another input has the same name, ignoring case; neither is loaded.
    Conflict,
    /// The package is loaded.
    Run,
}

pub open spec fn ignored(path: Seq<char>, handling: LocalBoostHandling) -> bool {
    local_boost_package(path) && handling == LocalBoostHandling::Ignore
}

pub open spec fn candidate(path: Seq<char>, handling: LocalBoostHandling) -> bool {
    !ignored(path, handling) && plugin_name_ok(path)
}

pub open spec fn conflicting(files: Seq<Seq<char>>, handling: LocalBoostHandling, i: int) -> bool {
    exists|j: int|
        0 <= j < files.len() && j != i && candidate(#[trigger] files[j], handling)
            && unicode_lowercase(file_stem(files[j])) == unicode_lowercase(file_stem(files[i]))
}

pub open spec fn decision(files: Seq<Seq<char>>, handling: LocalBoostHandling, i: int) -> LoadDecision {
    if ignored(files[i], handling) {
        LoadDecision::Skip
    } else if !plugin_name_ok(files[i]) {
        LoadDecision::BadName
    } else if conflicting(files, handling, i) {
        LoadDecision::Conflict
    } else {
        LoadDecision::Run
    }
}

/// Decides, for each package input in index order, whether it is
/// loaded; loading happens only in Windows PE.
pub fn load(environment: RuntimeEnvironment, files: &Vec<String>, options: LoadOptions) -> (r: Result<
    Vec<LoadDecision>,
    EliError,
>)
    ensures
        environment != RuntimeEnvironment::WindowsPE ==> (r matches Err(e) && e.kind
            == ErrorKind::Unsupported && e.message@ == "plugin loading is only implemented for Windows PE"@),
        environment == RuntimeEnvironment::WindowsPE ==> (r matches Ok(d) && d@.len() == files@.len() && forall|
            i: int,
        | 0 <= i < files@.len() ==> #[trigger] d@[i] == decision(
            path_views(files@),
            options.local_boost,
            i,
        )),
{
    if environment != RuntimeEnvironment::WindowsPE {
        return Err(
            EliError::new(
                ErrorKind::Unsupported,
                "plugin loading is only implemented for Windows PE".to_owned(),
            ),
        );
    }
    Ok(plan_load(files, options.local_boost))
}

/// Whether a package is loaded through LocalBoost: a `.7zl` package,
/// ignoring ASCII case.
pub fn is_local_boost(path: &str) -> (r: bool)
    ensures
        r == local_boost_package(path@),
{
    match extension_of(path) {
        Some(e) => eq_ignore_ascii_case(&e, &chars_of("7zl")),
        None => false,
    }
}

/// Whether a file found in an input directory is loaded: a `.7z` or
/// `.7zl` package, ignoring ASCII case; frozen packages stay behind.
pub fn is_load_candidate(path: &str) -> (r: bool)
    ensures
        r == match extension(path@) {
            Some(e) => eq_ignore_case(e, "7z"@) || eq_ignore_case(e, "7zl"@),
            None => false,
        },
{
    match extension_of(path) {
        Some(e) => eq_ignore_ascii_case(&e, &chars_of("7z")) || eq_ignore_ascii_case(&e, &chars_of("7zl")),
        None => false,
    }
}

/// How many packages load at once: the job window, but no more than there
/// are packages.
pub fn load_worker_count(jobs: usize, tasks: usize) -> (r: usize)
    ensures
        r == if jobs < tasks {
            jobs
        } else {
            tasks
        },
{
    if jobs < tasks {
        jobs
    } else {
        tasks
    }
}

pub open spec fn key_views(keys: Seq<Option<String>>) -> Seq<Option<Seq<char>>> {
    keys.map_values(
        |k: Option<String>|
            match k {
                Some(s) => Some(s@),
                None => None,
            },
    )
}

/// The decision for input `i` when every input that may be loaded is
/// keyed by its name with the letter case folded away, and the others have
/// no key: two inputs with one key conflict.
pub open spec fn keyed_decision(
    files: Seq<Seq<char>>,
    handling: LocalBoostHandling,
    keys: Seq<Option<Seq<char>>>,
    i: int,
) -> LoadDecision {
    if ignored(files[i], handling) {
        LoadDecision::Skip
    } else if keys[i] is None {
        LoadDecision::BadName
    } else if exists|j: int| 0 <= j < keys.len() && j != i && #[trigger] keys[j] == keys[i] {
        LoadDecision::Conflict
    } else {
        LoadDecision::Run
    }
}

/// Decides, for each package input in index order, whether it is loaded,
/// given the case-folded name of each input that may be loaded.
pub fn decide_load(files: &Vec<String>, handling: LocalBoostHandling, keys: &Vec<Option<String>>) -> (r: Vec<
    LoadDecision,
>)
    requires
        keys@.len() == files@.len(),
        forall|k: int|
            0 <= k < keys@.len() ==> ((#[trigger] keys@[k]) is Some <==> candidate(
                files@[k]@,
                handling,
            )),
    ensures
        r@.len() == files@.len(),
        forall|i: int|
            0 <= i < files@.len() ==> #[trigger] r@[i] == keyed_decision(
                path_views(files@),
                handling,
                key_views(keys@),
                i,
            ),
{
    let ghost fv = path_views(files@);
    let ghost kv = key_views(keys@);
    let n = files.len();
    let mut out: Vec<LoadDecision> = Vec::new();
    let mut a: usize = 0;
    while a < n
        invariant
            n == files@.len(),
            n == keys@.len(),
            fv == path_views(files@),
            kv == key_views(keys@),
            a <= n,
            forall|k: int|
                0 <= k < keys@.len() ==> ((#[trigger] keys@[k]) is Some <==> candidate(
                    files@[k]@,
                    handling,
                )),
            out@.len() == a,
            forall|k: int| 0 <= k < a ==> #[trigger] out@[k] == keyed_decision(fv, handling, kv, k),
        decreases n - a,
    {
        assert(fv[a as int] == files@[a as int]@);
        let path = files[a].as_str();
        let d = if is_local_boost(path) && handling == LocalBoostHandling::Ignore {
            LoadDecision::Skip
        } else {
            match &keys[a] {
                None => LoadDecision::BadName,
                Some(mine) => {
                    let mut clash = false;
                    let mut b: usize = 0;
                    while b < n
                        invariant
                            n == keys@.len(),
                            kv == key_views(keys@),
                            b <= n,
                            a < n,
                            keys@[a as int] == Some(*mine),
                            clash == exists|j: int| 0 <= j < b && j != a && #[trigger] kv[j] == kv[a as int],
                        decreases n - b,
                    {
                        let same = if b != a {
                            match &keys[b] {
                                Some(other) => eq(&chars_of(other.as_str()), &chars_of(mine.as_str())),
                                None => false,
                            }
                        } else {
                            false
                        };
                        proof {
                            assert(same <==> (b != a && kv[b as int] == kv[a as int]));
                        }
                        if same {
                            clash = true;
                        }
                        b = b + 1;
                    }
                    if clash {
                        LoadDecision::Conflict
                    } else {
                        LoadDecision::Run
                    }
                },
            }
        };
        out.push(d);
        a = a + 1;
    }
    out
}

/// Decides, for each package input in index order, whether it is loaded.
pub fn plan_load(files: &Vec<String>, handling: LocalBoostHandling) -> (r: Vec<LoadDecision>)
    ensures
        r@.len() == files@.len(),
        forall|i: int| 0 <= i < files@.len() ==> #[trigger] r@[i] == decision(path_views(files@), handling, i),
{
    let ghost fv = path_views(files@);
    let n = files.len();
    let mut keys: Vec<Option<String>> = Vec::new();
    let mut i: usize = 0;
    while i < n
        invariant
            n == files@.len(),
            fv == path_views(files@),
            i <= n,
            keys@.len() == i,
            forall|k: int|
                0 <= k < i ==> match #[trigger] keys@[k] {
                    Some(s) => candidate(fv[k], handling) && s@ == unicode_lowercase(file_stem(fv[k])),
                    None => !candidate(fv[k], handling),
                },
        decreases n - i,
    {
        assert(fv[i as int] == files@[i as int]@);
        let path = files[i].as_str();
        let ignore = is_local_boost(path) && handling == LocalBoostHandling::Ignore;
        if !ignore {
            match plugin_name(path) {
                Ok(name) => keys.push(Some(to_lowercase(name.as_str()))),
                Err(_) => keys.push(None),
            }
        } else {
            keys.push(None);
        }
        i = i + 1;
    }
    proof {
        assert forall|k: int| 0 <= k < keys@.len() implies ((#[trigger] keys@[k]) is Some <==> candidate(
            files@[k]@,
            handling,
        )) by {
            assert(fv[k] == files@[k]@);
        }
    }
    let out = decide_load(files, handling, &keys);
    proof {
        let kv = key_views(keys@);
        assert forall|i: int| 0 <= i < files@.len() implies #[trigger] out@[i] == decision(fv, handling, i) by {
            assert(out@[i] == keyed_decision(fv, handling, kv, i));
            if !ignored(fv[i], handling) && plugin_name_ok(fv[i]) {
                assert(kv[i] == Some(unicode_lowercase(file_stem(fv[i]))));
                if conflicting(fv, handling, i) {
                    let j = choose|j: int|
                        0 <= j < fv.len() && j != i && candidate(#[trigger] fv[j], handling)
                            && unicode_lowercase(file_stem(fv[j])) == unicode_lowercase(file_stem(fv[i]));
                    assert(kv[j] == kv[i]);
                }
                if exists|j: int| 0 <= j < kv.len() && j != i && #[trigger] kv[j] == kv[i] {
                    let j = choose|j: int| 0 <= j < kv.len() && j != i && #[trigger] kv[j] == kv[i];
                    assert(keys@[j] is Some);
                    assert(candidate(fv[j], handling));
                }
            }
        }
    }
    out
}

/// A load result with the index of its input.
#[derive(Debug)]
pub struct IndexedResult {
    pub index: usize,
    pub result: LoadResult,
}

/// The results of a load, in input order.
pub fn finish_load(results: Vec<IndexedResult>) -> (r: LoadSummary)
    ensures
        r.results@.len() == results@.len(),
        exists|order: Seq<int>|
            #![trigger order.len()]
            order.len() == results@.len() && (forall|k: int|
                0 <= k < order.len() ==> 0 <= #[trigger] order[k] < results@.len()) && (forall|
                a: int,
                b: int,
            |
                0 <= a < b < order.len() ==> order[a] != order[b] && results@[order[a]].index
                    <= results@[order[b]].index) && (forall|k: int|
                0 <= k < order.len() ==> #[trigger] r.results@[k] == results@[order[k]].result),
{
    let ghost input = results@;
    let n = results.len();
    let mut out: Vec<IndexedResult> = Vec::new();
    let mut rest = results;
    let mut taken: usize = 0;
    let ghost mut order: Seq<int> = Seq::empty();
    while rest.len() > 0
        invariant
            taken + rest@.len() == n,
            n == input.len(),
            rest@ == input.skip(taken as int),
            out@.len() == taken,
            order.len() == taken,
            forall|k: int| 0 <= k < order.len() ==> 0 <= #[trigger] order[k] < taken,
            forall|a: int, b: int| 0 <= a < b < order.len() ==> order[a] != order[b],
            forall|k: int| 0 <= k < out@.len() ==> #[trigger] out@[k] == input[order[k]],
            forall|a: int, b: int| 0 <= a < b < out@.len() ==> out@[a].index <= out@[b].index,
        decreases rest.len(),
    {
        let ghost rest_vec = rest@;
        let x = rest.remove(0);
        assert(x == input[taken as int]) by {
            assert(rest_vec[0] == input.skip(taken as int)[0]);
        }
        assert(rest@ =~= input.skip(taken + 1));
        let mut j: usize = out.len();
        while j > 0 && x.index < out[j - 1].index
            invariant
                j <= out@.len(),
                forall|k: int| j <= k < out@.len() ==> x.index < out@[k].index,
            decreases j,
        {
            j = j - 1;
        }
        let ghost old_out = out@;
        let ghost old_order = order;
        out.insert(j, x);
        proof {
            order = old_order.insert(j as int, taken as int);
            assert forall|a: int, b: int| 0 <= a < b < out@.len() implies out@[a].index
                <= out@[b].index by {
                if a < j && b == j {
                    if a < j - 1 {
                        assert(old_out[a].index <= old_out[j - 1].index);
                    }
                } else if a == j && b > j {
                    assert(out@[b] == old_out[b - 1]);
                } else if a < j && b > j {
                    assert(out@[a] == old_out[a] && out@[b] == old_out[b - 1]);
                } else if b < j {
                    assert(out@[a] == old_out[a] && out@[b] == old_out[b]);
                } else {
                    assert(out@[a] == old_out[a - 1] && out@[b] == old_out[b - 1]);
                }
            }
            assert forall|k: int| 0 <= k < out@.len() implies #[trigger] out@[k] == input[order[k]] by {
                if k < j {
                    assert(order[k] == old_order[k]);
                } else if k > j {
                    assert(order[k] == old_order[k - 1]);
                }
            }
            assert forall|a: int, b: int| 0 <= a < b < order.len() implies order[a] != order[b] by {
                if a != j && b != j {
                    let oa = if a < j { a } else { a - 1 };
                    let ob = if b < j { b } else { b - 1 };
                    assert(order[a] == old_order[oa] && order[b] == old_order[ob]);
                } else if a == j {
                    let ob = b - 1;
                    assert(order[b] == old_order[ob]);
                } else {
                    assert(order[a] == old_order[a]);
                }
            }
            assert forall|k: int| 0 <= k < order.len() implies 0 <= #[trigger] order[k] < taken + 1 by {
                if k < j {
                    assert(order[k] == old_order[k]);
                } else if k > j {
                    assert(order[k] == old_order[k - 1]);
                }
            }
        }
        taken = taken + 1;
    }
    let mut summary: Vec<LoadResult> = Vec::new();
    let mut i: usize = 0;
    let ghost sorted = out@;
    while out.len() > 0
        invariant
            i + out@.len() == n,
            out@ == sorted.skip(i as int),
            sorted.len() == n,
            summary@.len() == i,
            forall|k: int| 0 <= k < i ==> #[trigger] summary@[k] == sorted[k].result,
        decreases out.len(),
    {
        let ghost out_vec = out@;
        let x = out.remove(0);
        assert(x == sorted[i as int]) by {
            assert(out_vec[0] == sorted.skip(i as int)[0]);
        }
        assert(out@ =~= sorted.skip(i + 1));
        summary.push(x.result);
        i = i + 1;
    }
    proof {
        assert(order.len() == input.len());
        assert forall|k: int| 0 <= k < order.len() implies #[trigger] summary@[k] == input[order[k]].result by {
            assert(sorted[k] == input[order[k]]);
        }
        assert forall|a: int, b: int| 0 <= a < b < order.len() implies order[a] != order[b] && input[order[a]].index
            <= input[order[b]].index by {
            assert(sorted[a] == input[order[a]] && sorted[b] == input[order[b]]);
        }
    }
    LoadSummary { results: summary }
}


/// Adds `l` unless it is empty (when `skip_empty`) or already there,
/// ignoring ASCII case.
pub open spec fn add_line(prev: Seq<Seq<char>>, l: Seq<char>, skip_empty: bool) -> Seq<Seq<char>> {
    if (skip_empty && l.len() == 0) || exists|k: int| 0 <= k < prev.len() && eq_ignore_case(#[trigger] prev[k], l) {
        prev
    } else {
        prev.push(l)
    }
}

pub open spec fn merged(prev: Seq<Seq<char>>, ls: Seq<Seq<char>>, n: int, skip_empty: bool) -> Seq<Seq<char>>
    decreases n,
{
    if n <= 0 {
        prev
    } else {
        add_line(merged(prev, ls, n - 1, skip_empty), ls[n - 1], skip_empty)
    }
}

/// No two lines are equal when ASCII case is ignored.
pub open spec fn lines_distinct(ls: Seq<Seq<char>>) -> bool {
    forall|i: int, j: int| 0 <= i < j < ls.len() ==> !eq_ignore_case(#[trigger] ls[i], #[trigger] ls[j])
}

/// Merging lines into a list without repeats keeps it without repeats (ASCII
/// case ignored) and, when empty lines are skipped, without empty lines;
/// every line merged in is there afterwards, in some spelling.
pub proof fn lemma_merged_unique(prev: Seq<Seq<char>>, ls: Seq<Seq<char>>, n: int, skip_empty: bool)
    requires
        0 <= n <= ls.len(),
        lines_distinct(prev),
        skip_empty ==> forall|k: int| 0 <= k < prev.len() ==> (#[trigger] prev[k]).len() > 0,
    ensures
        lines_distinct(merged(prev, ls, n, skip_empty)),
        skip_empty ==> forall|k: int|
            0 <= k < merged(prev, ls, n, skip_empty).len() ==> (#[trigger] merged(
                prev,
                ls,
                n,
                skip_empty,
            )[k]).len() > 0,
        forall|k: int|
            0 <= k < n && !(skip_empty && ls[k].len() == 0) ==> exists|j: int|
                0 <= j < merged(prev, ls, n, skip_empty).len() && eq_ignore_case(
                    #[trigger] merged(prev, ls, n, skip_empty)[j],
                    #[trigger] ls[k],
                ),
    decreases n,
{
    if n > 0 {
        lemma_merged_unique(prev, ls, n - 1, skip_empty);
        let before = merged(prev, ls, n - 1, skip_empty);
        let after = merged(prev, ls, n, skip_empty);
        let l = ls[n - 1];
        assert(after == add_line(before, l, skip_empty));
        assert forall|k: int|
            0 <= k < n && !(skip_empty && ls[k].len() == 0) implies exists|j: int|
                0 <= j < after.len() && eq_ignore_case(#[trigger] after[j], #[trigger] ls[k]) by {
            if k < n - 1 {
                let j = choose|j: int|
                    0 <= j < before.len() && eq_ignore_case(#[trigger] before[j], ls[k]);
                assert(after[j] == before[j]);
            } else if after.len() > before.len() {
                assert(after[before.len() as int] == l);
            } else {
                let j = choose|j: int| 0 <= j < before.len() && eq_ignore_case(#[trigger] before[j], l);
                assert(after[j] == before[j]);
            }
        }
    }
}

fn add_line_to(lines: &mut Vec<String>, l: &Vec<char>, skip_empty: bool)
    ensures
        path_views(final(lines)@) == add_line(path_views(old(lines)@), l@, skip_empty),
{
    let ghost prev = path_views(lines@);
    if skip_empty && l.len() == 0 {
        return;
    }
    let mut k: usize = 0;
    while k < lines.len()
        invariant
            k <= lines@.len(),
            prev == path_views(lines@),
            forall|j: int| 0 <= j < k ==> !eq_ignore_case(#[trigger] prev[j], l@),
        decreases lines.len() - k,
    {
        assert(prev[k as int] == lines@[k as int]@);
        if eq_ignore_ascii_case(&chars_of(lines[k].as_str()), l) {
            return;
        }
        k = k + 1;
    }
    lines.push(string_of(l));
    assert(path_views(lines@) =~= prev.push(l@));
}

/// The non-empty lines of a bookkeeping file, each once, ignoring ASCII
/// case; the first spelling is kept.
pub fn unique_nonempty_lines(contents: &str) -> (r: Vec<String>)
    ensures
        path_views(r@) == merged(Seq::empty(), lines(contents@), lines(contents@).len() as int, true),
        lines_distinct(path_views(r@)),
        forall|k: int| 0 <= k < r@.len() ==> (#[trigger] r@[k])@.len() > 0,
{
    let ls = lines_of(&chars_of(contents));
    let mut out: Vec<String> = Vec::new();
    let mut i: usize = 0;
    assert(path_views(out@) =~= Seq::<Seq<char>>::empty());
    while i < ls.len()
        invariant
            i <= ls@.len(),
            views(ls@) == lines(contents@),
            path_views(out@) == merged(Seq::empty(), views(ls@), i as int, true),
        decreases ls.len() - i,
    {
        add_line_to(&mut out, &ls[i], true);
        assert(views(ls@)[i as int] == ls@[i as int]@);
        i = i + 1;
    }
    proof {
        lemma_merged_unique(Seq::empty(), lines(contents@), lines(contents@).len() as int, true);
        assert forall|k: int| 0 <= k < out@.len() implies (#[trigger] out@[k])@.len() > 0 by {
            assert(path_views(out@)[k] == out@[k]@);
        }
    }
    out
}

/// Adds entries to the lines of a bookkeeping file, each unless already
/// there, ignoring ASCII case.
pub fn merge_lines(lines: Vec<String>, entries: &Vec<String>) -> (r: Vec<String>)
    ensures
        path_views(r@) == merged(path_views(lines@), path_views(entries@), entries@.len() as int, false),
{
    let ghost start = path_views(lines@);
    let mut out = lines;
    let mut i: usize = 0;
    while i < entries.len()
        invariant
            i <= entries@.len(),
            path_views(out@) == merged(start, path_views(entries@), i as int, false),
        decreases entries.len() - i,
    {
        add_line_to(&mut out, &chars_of(entries[i].as_str()), false);
        assert(path_views(entries@)[i as int] == entries@[i as int]@);
        i = i + 1;
    }
    out
}

/// The text of a bookkeeping file: each line followed by a line feed.
pub open spec fn contents_of(ls: Seq<Seq<char>>, n: int) -> Seq<char>
    decreases n,
{
    if n <= 0 {
        Seq::empty()
    } else {
        contents_of(ls, n - 1) + ls[n - 1] + seq!['\n']
    }
}

pub fn lines_to_contents(lines: &Vec<String>) -> (r: String)
    ensures
        r@ == contents_of(path_views(lines@), lines@.len() as int),
{
    let mut out: Vec<char> = Vec::new();
    let mut i: usize = 0;
    while i < lines.len()
        invariant
            i <= lines@.len(),
            out@ == contents_of(path_views(lines@), i as int),
        decreases lines.len() - i,
    {
        assert(path_views(lines@)[i as int] == lines@[i as int]@);
        out = concat(&out, &chars_of(lines[i].as_str()));
        out.push('\n');
        i = i + 1;
    }
    string_of(&out)
}

/// The next value of the load counter; a missing counter file counts as
/// zero.
pub open spec fn counter_outcome(current: Option<Seq<char>>) -> Result<u64, ErrorKind> {
    match current {
        None => Ok(1),
        Some(t) => match parse_unsigned(trim(t), u64::MAX as nat) {
            Some(v) => if v < u64::MAX {
                Ok((v + 1) as u64)
            } else {
                Err(ErrorKind::InvalidData)
            },
            None => Err(ErrorKind::InvalidData),
        },
    }
}

pub fn next_counter(current: Option<&str>) -> (r: Result<u64, EliError>)
    ensures
        crate::api::outcome(r) == counter_outcome(crate::kernel::opt_str(current)),
        r matches Err(e) ==> e.message@ == if parse_unsigned(
            trim(crate::kernel::opt_str(current)->0),
            u64::MAX as nat,
        ) is Some {
            "plugin load counter overflowed"@
        } else {
            "invalid plugin load counter"@
        },
{
    match current {
        None => Ok(1),
        Some(t) => match crate::text::parse_u64_chars(&trim_ws(&chars_of(t))) {
            Some(v) => if v < u64::MAX {
                Ok(v + 1)
            } else {
                Err(
                    EliError::new(
                        ErrorKind::InvalidData,
                        "plugin load counter overflowed".to_owned(),
                    ),
                )
            },
            None => Err(EliError::new(ErrorKind::InvalidData, "invalid plugin load counter".to_owned())),
        },
    }
}

/// The name a package script gets when it is published:
/// `<stem>_hotload_<counter>.<extension>`.
pub open spec fn hotload_name(stem: Seq<char>, counter: u64, ext: Seq<char>) -> Seq<char> {
    stem + "_hotload_"@ + decimal(counter as nat) + seq!['.'] + ext
}

pub fn hotload_script_name(stem: &str, counter: u64, ext: &str) -> (r: String)
    ensures
        r@ == hotload_name(stem@, counter, ext@),
{
    let mut out = concat(&chars_of(stem), &chars_of("_hotload_"));
    out = concat(&out, &decimal_chars(counter));
    out.push('.');
    out = concat(&out, &chars_of(ext));
    string_of(&out)
}

/// The bookkeeping file of a plugin in one metadata directory.
pub fn manifest_file_name(plugin_name: &str) -> (r: String)
    ensures
        r@ == plugin_name@ + ".txt"@,
{
    string_of(&concat(&chars_of(plugin_name), &chars_of(".txt")))
}

} // verus!
