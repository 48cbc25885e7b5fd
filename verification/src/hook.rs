//! Lifecycle hooks: the stages Edgeless documents, which script names a
//! hook may hold, the order scripts run in, and the summary of a call.
//!
//! Copying, removing and running scripts happens at the edge of the
//! program; it asks this module where a script goes and in which order
//! scripts run, and hands back each script's result.
use crate::config::{extension, file_name};
use crate::error::{EliError, ErrorKind};
use crate::path::{char_codes, lemma_lex_total, lemma_lex_transitive, lex_less, key_less};
use crate::text::{
    chars_of, concat, eq, eq_ignore_ascii_case, eq_ignore_case, is_control, lower, lower_seq,
    string_of, to_lower, to_upper, trim_end_by, upper_seq,
};
use crate::dependency::RuntimeEnvironment;
use vstd::prelude::*;

verus! {

broadcast use vstd::seq_lib::to_multiset_insert, vstd::seq_lib::to_multiset_len;

/// The hook stages that Edgeless documents.
#[derive(Clone, Copy, Debug, PartialEq, Eq, Structural)]
pub enum HookStage {
    OnDiskFound,
    BeforeLocalBoost,
    BeforePluginLoading,
    OnDesktopShown,
    OnBootFinished,
    OnExit,
}

pub open spec fn stage_name(s: HookStage) -> Seq<char> {
    match s {
        HookStage::OnDiskFound => "onDiskFound"@,
        HookStage::BeforeLocalBoost => "beforeLocalBoost"@,
        HookStage::BeforePluginLoading => "beforePluginLoading"@,
        HookStage::OnDesktopShown => "onDesktopShown"@,
        HookStage::OnBootFinished => "onBootFinished"@,
        HookStage::OnExit => "onExit"@,
    }
}

/// The stage whose name is exactly `name`.
pub open spec fn stage_named(name: Seq<char>) -> Option<HookStage> {
    if name == stage_name(HookStage::OnDiskFound) {
        Some(HookStage::OnDiskFound)
    } else if name == stage_name(HookStage::BeforeLocalBoost) {
        Some(HookStage::BeforeLocalBoost)
    } else if name == stage_name(HookStage::BeforePluginLoading) {
        Some(HookStage::BeforePluginLoading)
    } else if name == stage_name(HookStage::OnDesktopShown) {
        Some(HookStage::OnDesktopShown)
    } else if name == stage_name(HookStage::OnBootFinished) {
        Some(HookStage::OnBootFinished)
    } else if name == stage_name(HookStage::OnExit) {
        Some(HookStage::OnExit)
    } else {
        None
    }
}

impl HookStage {
    /// The stages, in documentation order.
    pub fn all() -> (r: Vec<HookStage>)
        ensures
            r@ == seq![
                HookStage::OnDiskFound,
                HookStage::BeforeLocalBoost,
                HookStage::BeforePluginLoading,
                HookStage::OnDesktopShown,
                HookStage::OnBootFinished,
                HookStage::OnExit,
            ],
    {
        let r = vec![
            HookStage::OnDiskFound,
            HookStage::BeforeLocalBoost,
            HookStage::BeforePluginLoading,
            HookStage::OnDesktopShown,
            HookStage::OnBootFinished,
            HookStage::OnExit,
        ];
        assert(r@ =~= seq![
            HookStage::OnDiskFound,
            HookStage::BeforeLocalBoost,
            HookStage::BeforePluginLoading,
            HookStage::OnDesktopShown,
            HookStage::OnBootFinished,
            HookStage::OnExit,
        ]);
        r
    }

    /// The directory name of the stage.
    pub fn as_str(self) -> (r: &'static str)
        ensures
            r@ == stage_name(self),
    {
        match self {
            HookStage::OnDiskFound => "onDiskFound",
            HookStage::BeforeLocalBoost => "beforeLocalBoost",
            HookStage::BeforePluginLoading => "beforePluginLoading",
            HookStage::OnDesktopShown => "onDesktopShown",
            HookStage::OnBootFinished => "onBootFinished",
            HookStage::OnExit => "onExit",
        }
    }

    /// The stage with exactly this directory name.
    pub fn try_from(name: &str) -> (r: Result<HookStage, EliError>)
        ensures
            match stage_named(name@) {
                Some(s) => r matches Ok(t) && t == s,
                None => r matches Err(e) && e.kind == ErrorKind::InvalidInput && e.message@
                    == "unknown hook stage \""@ + name@ + "\"; expected one of: "@
                    + "onDiskFound, beforeLocalBoost, beforePluginLoading, onDesktopShown, onBootFinished, onExit"@,
            },
    {
        let wanted = chars_of(name);
        let stages = HookStage::all();
        let mut i: usize = 0;
        while i < stages.len()
            invariant
                i <= stages.len(),
                wanted@ == name@,
                stages@ == seq![
                    HookStage::OnDiskFound,
                    HookStage::BeforeLocalBoost,
                    HookStage::BeforePluginLoading,
                    HookStage::OnDesktopShown,
                    HookStage::OnBootFinished,
                    HookStage::OnExit,
                ],
                forall|k: int| 0 <= k < i ==> name@ != stage_name(#[trigger] stages@[k]),
            decreases stages.len() - i,
        {
            let s = stages[i];
            if eq(&wanted, &chars_of(s.as_str())) {
                proof {
                    lemma_stage_names_distinct();
                }
                return Ok(s);
            }
            i = i + 1;
        }
        assert(name@ != stage_name(stages@[0]) && name@ != stage_name(stages@[1]) && name@
            != stage_name(stages@[2]) && name@ != stage_name(stages@[3]) && name@ != stage_name(
            stages@[4],
        ) && name@ != stage_name(stages@[5]));
        let mut message = concat(&chars_of("unknown hook stage \""), &wanted);
        message = concat(&message, &chars_of("\"; expected one of: "));
        message = concat(
            &message,
            &chars_of(
                "onDiskFound, beforeLocalBoost, beforePluginLoading, onDesktopShown, onBootFinished, onExit",
            ),
        );
        Err(EliError::new(ErrorKind::InvalidInput, string_of(&message)))
    }
}

/// No two stages share a name.
pub proof fn lemma_stage_names_distinct()
    ensures
        forall|a: HookStage, b: HookStage| stage_name(a) == stage_name(b) ==> a == b,
{
    reveal_strlit("onDiskFound");
    reveal_strlit("beforeLocalBoost");
    reveal_strlit("beforePluginLoading");
    reveal_strlit("onDesktopShown");
    reveal_strlit("onBootFinished");
    reveal_strlit("onExit");
    assert forall|a: HookStage, b: HookStage| stage_name(a) == stage_name(b) implies a == b by {
        if a != b {
            let x = stage_name(a);
            let y = stage_name(b);
            assert(x.len() != y.len() || x[0] != y[0] || x[2] != y[2]);
        }
    }
}

/// A stage's name reads back as that stage.
pub proof fn lemma_stage_round_trip(s: HookStage)
    ensures
        stage_named(stage_name(s)) == Some(s),
{
    lemma_stage_names_distinct();
}

/// Characters that no portable file name may hold.
pub open spec fn forbidden_char(c: char) -> bool {
    is_control(c) || c == '<' || c == '>' || c == ':' || c == '"' || c == '/' || c == '\\' || c
        == '|' || c == '?' || c == '*'
}

/// The part of a name before its first dot.
pub open spec fn first_piece(name: Seq<char>) -> Seq<char> {
    crate::text::split(name, '.')[0]
}

/// Device names that Windows reserves, whatever the extension and case.
pub open spec fn windows_reserved(name: Seq<char>) -> bool {
    let stem = upper_seq(trim_end_by(first_piece(name), |c: char| c == ' ' || c == '.'));
    ||| stem == "CON"@
    ||| stem == "PRN"@
    ||| stem == "AUX"@
    ||| stem == "NUL"@
    ||| (stem.len() == 4 && (stem.take(3) == "COM"@ || stem.take(3) == "LPT"@) && '1' <= stem[3]
        && stem[3] <= '9')
}

/// A single file name that every supported platform can hold.
pub open spec fn portable_file_name(name: Seq<char>) -> bool {
    &&& name.len() > 0
    &&& name.last() != ' '
    &&& name.last() != '.'
    &&& !windows_reserved(name)
    &&& forall|i: int| 0 <= i < name.len() ==> !forbidden_char(#[trigger] name[i])
}

/// A `.cmd` or `.wcs` file, in any letter case.
pub open spec fn supported_script(path: Seq<char>) -> bool {
    match extension(path) {
        Some(e) => eq_ignore_case(e, "cmd"@) || eq_ignore_case(e, "wcs"@),
        None => false,
    }
}

pub open spec fn cmd_script(path: Seq<char>) -> bool {
    match extension(path) {
        Some(e) => eq_ignore_case(e, "cmd"@),
        None => false,
    }
}

fn first_piece_of(name: &Vec<char>) -> (r: Vec<char>)
    ensures
        r@ == first_piece(name@),
{
    let pieces = crate::text::split_chars(name, '.');
    proof {
        crate::text::lemma_split_len(name@, '.');
    }
    crate::text::copy_chars(&pieces[0])
}

/// Whether a name is one of the device names Windows reserves.
pub fn is_windows_reserved_name(name: &str) -> (r: bool)
    ensures
        r == windows_reserved(name@),
{
    let first = first_piece_of(&chars_of(name));
    let ghost pred = |c: char| c == ' ' || c == '.';
    let mut end: usize = first.len();
    while end > 0 && (first[end - 1] == ' ' || first[end - 1] == '.')
        invariant
            end <= first.len(),
            forall|j: int| end <= j < first.len() ==> #[trigger] first@[j] == ' ' || first@[j] == '.',
        decreases end,
    {
        end = end - 1;
    }
    proof {
        crate::text::lemma_trailing_exact(first@, pred, first.len() - end);
    }
    let stem = to_upper(&crate::text::slice(&first, 0, end));
    proof {
        reveal_strlit("CON");
        reveal_strlit("PRN");
        reveal_strlit("AUX");
        reveal_strlit("NUL");
        reveal_strlit("COM");
        reveal_strlit("LPT");
    }
    if eq(&stem, &chars_of("CON")) || eq(&stem, &chars_of("PRN")) || eq(&stem, &chars_of("AUX"))
        || eq(&stem, &chars_of("NUL")) {
        return true;
    }
    if stem.len() == 4 {
        let head = crate::text::slice(&stem, 0, 3);
        assert(head@ == stem@.take(3));
        return (eq(&head, &chars_of("COM")) || eq(&head, &chars_of("LPT"))) && '1' <= stem[3]
            && stem[3] <= '9';
    }
    false
}

/// Accepts a single portable file name; `description` names it in the
/// error.
pub fn validate_portable_file_name(name: &str, description: &str) -> (r: Result<(), EliError>)
    ensures
        match r {
            Ok(()) => portable_file_name(name@),
            Err(e) => !portable_file_name(name@) && e.kind == ErrorKind::InvalidInput && e.message@
                == description@ + " must be a portable file name without path separators"@,
        },
{
    let chars = chars_of(name);
    let mut clean = true;
    let mut i: usize = 0;
    while i < chars.len()
        invariant
            i <= chars.len(),
            chars@ == name@,
            clean == forall|k: int| 0 <= k < i ==> !forbidden_char(#[trigger] chars@[k]),
        decreases chars.len() - i,
    {
        let c = chars[i];
        let control = c <= '\u{1f}' || ('\u{7f}' <= c && c <= '\u{9f}');
        if control || c == '<' || c == '>' || c == ':' || c == '"' || c == '/' || c == '\\' || c
            == '|' || c == '?' || c == '*' {
            clean = false;
        }
        i = i + 1;
    }
    let ok = chars.len() > 0 && chars[chars.len() - 1] != ' ' && chars[chars.len() - 1] != '.'
        && !is_windows_reserved_name(name) && clean;
    if ok {
        Ok(())
    } else {
        let message = concat(
            &chars_of(description),
            &chars_of(" must be a portable file name without path separators"),
        );
        Err(EliError::new(ErrorKind::InvalidInput, string_of(&message)))
    }
}

fn extension_is(path: &str, wanted: &str) -> (r: bool)
    ensures
        r == match extension(path@) {
            Some(e) => eq_ignore_case(e, wanted@),
            None => false,
        },
{
    match crate::config::extension_of(path) {
        Some(e) => eq_ignore_ascii_case(&e, &chars_of(wanted)),
        None => false,
    }
}

/// Whether a path names a `.cmd` or `.wcs` script.
pub fn is_supported_script(path: &str) -> (r: bool)
    ensures
        r == supported_script(path@),
{
    extension_is(path, "cmd") || extension_is(path, "wcs")
}

/// Whether a path names a `.cmd` script.
pub fn is_cmd_script(path: &str) -> (r: bool)
    ensures
        r == cmd_script(path@),
{
    extension_is(path, "cmd")
}

/// Accepts a portable `.cmd` or `.wcs` file name.
/// Why a name is no hook script name.
pub open spec fn script_name_problem(name: Seq<char>) -> Seq<char> {
    if !portable_file_name(name) {
        "hook script name must be a portable file name without path separators"@
    } else {
        "hook scripts must use the .cmd or .wcs extension"@
    }
}

pub fn validate_script_name(name: &str) -> (r: Result<(), EliError>)
    ensures
        match r {
            Ok(()) => portable_file_name(name@) && supported_script(name@),
            Err(e) => !(portable_file_name(name@) && supported_script(name@)) && e.kind
                == ErrorKind::InvalidInput && e.message@ == script_name_problem(name@),
        },
{
    proof {
        reveal_strlit("hook script name");
        reveal_strlit(" must be a portable file name without path separators");
        reveal_strlit("hook script name must be a portable file name without path separators");
        assert("hook script name"@ + " must be a portable file name without path separators"@
            =~= "hook script name must be a portable file name without path separators"@);
    }
    match validate_portable_file_name(name, "hook script name") {
        Ok(()) => {},
        Err(e) => {
            return Err(e);
        },
    }
    if is_supported_script(name) {
        Ok(())
    } else {
        Err(
            EliError::new(
                ErrorKind::InvalidInput,
                "hook scripts must use the .cmd or .wcs extension".to_owned(),
            ),
        )
    }
}

/// Where a hook script lives on the boot disk: `Edgeless/Hooks/<stage>/<script>`.
#[derive(Debug)]
pub struct HookTarget {
    pub stage: HookStage,
    pub script: String,
}

/// Checks a script that is to be added to a hook: it needs a file name,
/// and that name must be a portable `.cmd` or `.wcs` name.
pub fn add(hook: HookStage, source_file_name: Option<&str>) -> (r: Result<HookTarget, EliError>)
    ensures
        match source_file_name {
            Some(n) => match r {
                Ok(t) => t.stage == hook && t.script@ == n@ && portable_file_name(n@)
                    && supported_script(n@),
                Err(e) => !(portable_file_name(n@) && supported_script(n@)) && e.kind
                    == ErrorKind::InvalidInput && e.message@ == script_name_problem(n@),
            },
            None => r matches Err(e) && e.kind == ErrorKind::InvalidInput && e.message@
                == "hook script path has no file name"@,
        },
{
    match source_file_name {
        Some(n) => match validate_script_name(n) {
            Ok(()) => Ok(HookTarget { stage: hook, script: n.to_owned() }),
            Err(e) => Err(e),
        },
        None => Err(
            EliError::new(ErrorKind::InvalidInput, "hook script path has no file name".to_owned()),
        ),
    }
}

/// Checks a script that is to be removed from a hook.
pub fn remove(hook: HookStage, script: &str) -> (r: Result<HookTarget, EliError>)
    ensures
        match r {
            Ok(t) => t.stage == hook && t.script@ == script@ && portable_file_name(script@)
                && supported_script(script@),
            Err(e) => !(portable_file_name(script@) && supported_script(script@)) && e.kind
                == ErrorKind::InvalidInput && e.message@ == script_name_problem(script@),
        },
{
    match validate_script_name(script) {
        Ok(()) => Ok(HookTarget { stage: hook, script: script.to_owned() }),
        Err(e) => Err(e),
    }
}

/// How the scripts of a hook are run.
#[derive(Clone, Copy, Debug, PartialEq, Eq, Structural)]
pub enum CallPolicy {
    /// One after the other, each waited for.
    Sync,
    /// All started without waiting.
    Async,
}

impl Default for CallPolicy {
    fn default() -> (r: CallPolicy)
        ensures
            r == CallPolicy::Sync,
    {
        CallPolicy::Sync
    }
}

/// The hook root used at run time when none is given.
pub const DEFAULT_DICTIONARY: &'static str = r"X:\Program Files\Edgeless\system_hooks";

#[derive(Debug)]
pub struct CallOptions {
    pub policy: CallPolicy,
    pub dictionary: String,
}

impl Default for CallOptions {
    fn default() -> (r: CallOptions)
        ensures
            r.policy == CallPolicy::Sync,
            r.dictionary@ == DEFAULT_DICTIONARY@,
    {
        CallOptions { policy: CallPolicy::Sync, dictionary: DEFAULT_DICTIONARY.to_owned() }
    }
}

/// What starting or running one script gave.
#[derive(Debug)]
pub struct HookCallResult {
    pub path: String,
    pub result: Result<(), EliError>,
}

#[derive(Debug)]
pub struct HookCallSummary {
    pub results: Vec<HookCallResult>,
}

/// Number of successful results among the first `n`.
pub open spec fn succeeded_in(results: Seq<HookCallResult>, n: int) -> nat
    decreases n,
{
    if n <= 0 {
        0
    } else {
        succeeded_in(results, n - 1) + (if results[n - 1].result is Ok {
            1nat
        } else {
            0nat
        })
    }
}

pub proof fn lemma_succeeded_bound(results: Seq<HookCallResult>, n: int)
    requires
        0 <= n <= results.len(),
    ensures
        succeeded_in(results, n) <= n,
        succeeded_in(results, n) == n <==> forall|k: int| 0 <= k < n ==> (#[trigger] results[k]).result is Ok,
    decreases n,
{
    if n > 0 {
        lemma_succeeded_bound(results, n - 1);
    }
}

impl HookCallSummary {
    /// Number of scripts that ran successfully.
    pub fn succeeded(&self) -> (r: usize)
        ensures
            r == succeeded_in(self.results@, self.results@.len() as int),
    {
        let mut n: usize = 0;
        let mut i: usize = 0;
        while i < self.results.len()
            invariant
                i <= self.results@.len(),
                n == succeeded_in(self.results@, i as int),
            decreases self.results.len() - i,
        {
            proof {
                lemma_succeeded_bound(self.results@, i as int);
            }
            if self.results[i].result.is_ok() {
                n = n + 1;
            }
            i = i + 1;
        }
        n
    }

    /// Number of scripts that failed.
    pub fn failed(&self) -> (r: usize)
        ensures
            r == self.results@.len() - succeeded_in(self.results@, self.results@.len() as int),
    {
        proof {
            lemma_succeeded_bound(self.results@, self.results@.len() as int);
        }
        self.results.len() - self.succeeded()
    }

    /// Whether every script succeeded.
    pub fn is_success(&self) -> (r: bool)
        ensures
            r == forall|k: int| 0 <= k < self.results@.len() ==> (#[trigger] self.results@[k]).result is Ok,
    {
        proof {
            lemma_succeeded_bound(self.results@, self.results@.len() as int);
        }
        self.failed() == 0
    }
}

/// Every result counts once: as a success or as a failure.
pub proof fn lemma_summary_counts(s: HookCallSummary)
    ensures
        succeeded_in(s.results@, s.results@.len() as int) <= s.results@.len(),
        (succeeded_in(s.results@, s.results@.len() as int) == s.results@.len()) == forall|k: int|
            0 <= k < s.results@.len() ==> (#[trigger] s.results@[k]).result is Ok,
{
    lemma_succeeded_bound(s.results@, s.results@.len() as int);
}

/// The sort key of a script: its file name in ASCII lower case.
pub open spec fn script_key(path: Seq<char>) -> Seq<u64> {
    lower_seq(file_name(path)).map_values(|c: char| (c as u32) as u64)
}

/// Scripts run in the order of their file names with ASCII case ignored:
/// names that differ only in letter case take the same place, and a script
/// whose lower-cased file name comes first in character order runs first.
pub proof fn lemma_script_order_ignores_case(p: Seq<char>, q: Seq<char>)
    ensures
        lower_seq(file_name(p)) == lower_seq(file_name(q)) ==> script_key(p) == script_key(q),
        lex_less(char_codes(lower_seq(file_name(p))), char_codes(lower_seq(file_name(q))))
            <==> lex_less(script_key(p), script_key(q)),
{
    assert(script_key(p) =~= char_codes(lower_seq(file_name(p))));
    assert(script_key(q) =~= char_codes(lower_seq(file_name(q))));
}

fn script_key_of(path: &str) -> (r: Vec<u64>)
    ensures
        r@ == script_key(path@),
{
    let name = to_lower(&crate::config::file_name_of(path));
    let mut out: Vec<u64> = Vec::new();
    let mut i: usize = 0;
    while i < name.len()
        invariant
            i <= name.len(),
            out@ == name@.take(i as int).map_values(|c: char| (c as u32) as u64),
        decreases name.len() - i,
    {
        out.push((name[i] as u32) as u64);
        i = i + 1;
        assert(out@ =~= name@.take(i as int).map_values(|c: char| (c as u32) as u64));
    }
    assert(name@.take(name.len() as int) =~= name@);
    out
}

/// The scripts of a hook in the order they run: by file name, ignoring
/// ASCII case; scripts whose names compare equal keep their order.
pub fn order_scripts(scripts: Vec<String>) -> (r: Vec<String>)
    ensures
        r@.map_values(|s: String| s@).to_multiset() == scripts@.map_values(|s: String| s@).to_multiset(),
        forall|a: int, b: int|
            0 <= a < b < r@.len() ==> !lex_less(script_key(r@[b]@), script_key(r@[a]@)),
        forall|a: int, b: int|
            0 <= a < b < r@.len() ==> !lex_less(
                char_codes(lower_seq(file_name(r@[b]@))),
                char_codes(lower_seq(file_name(r@[a]@))),
            ),
{
    let ghost input = scripts@.map_values(|s: String| s@);
    let n_items: usize = scripts.len();
    let ghost n = n_items as nat;
    let mut out: Vec<String> = Vec::new();
    let mut keys: Vec<Vec<u64>> = Vec::new();
    let mut rest = scripts;
    let mut taken: usize = 0;
    assert(rest@.map_values(|s: String| s@) =~= input.skip(0));
    assert(input.take(0) =~= Seq::<Seq<char>>::empty());
    assert(out@.map_values(|s: String| s@) =~= Seq::<Seq<char>>::empty());
    while rest.len() > 0
        invariant
            taken + rest@.len() == n,
            n <= usize::MAX,
            input.len() == n,
            rest@.map_values(|s: String| s@) == input.skip(taken as int),
            out@.len() == keys@.len(),
            forall|a: int| 0 <= a < keys@.len() ==> (#[trigger] keys@[a])@ == script_key(out@[a]@),
            forall|a: int, b: int| 0 <= a < b < out@.len() ==> !lex_less(keys@[b]@, keys@[a]@),
            out@.map_values(|s: String| s@).to_multiset() == input.take(taken as int).to_multiset(),
        decreases rest.len(),
    {
        let ghost rest_before = rest@.map_values(|s: String| s@);
        let ghost rest_vec = rest@;
        let x = rest.remove(0);
        assert(x@ == input[taken as int]) by {
            assert(rest_before[0] == input.skip(taken as int)[0]);
        }
        assert(rest@ == rest_vec.remove(0));
        assert(rest@.map_values(|s: String| s@) =~= rest_before.drop_first());
        assert(rest_before.drop_first() =~= input.skip(taken + 1));
        let kx = script_key_of(x.as_str());
        let mut j: usize = keys.len();
        while j > 0 && key_less(&kx, &keys[j - 1])
            invariant
                j <= keys@.len(),
                forall|a: int| j <= a < keys@.len() ==> lex_less(kx@, keys@[a]@),
            decreases j,
        {
            j = j - 1;
        }
        let ghost old_keys = keys@;
        let ghost old_views = out@.map_values(|s: String| s@);
        keys.insert(j, kx);
        out.insert(j, x);
        proof {
            assert(out@.map_values(|s: String| s@) =~= old_views.insert(j as int, x@));
            assert(input.take(taken + 1) =~= input.take(taken as int).push(input[taken as int]));
            vstd::seq_lib::to_multiset_build(input.take(taken as int), input[taken as int]);
            assert forall|a: int, b: int| 0 <= a < b < out@.len() implies !lex_less(
                keys@[b]@,
                keys@[a]@,
            ) by {
                if a < j && b == j {
                    assert(keys@[a] == old_keys[a]);
                    if lex_less(kx@, old_keys[a]@) {
                        let kj = old_keys[j - 1]@;
                        lemma_lex_total(kx@, kj);
                        if a < j - 1 {
                            assert(!lex_less(kj, old_keys[a]@));
                            if kj != kx@ {
                                lemma_lex_transitive(kj, kx@, old_keys[a]@);
                            }
                        }
                    }
                } else if a == j && b > j {
                    assert(keys@[b] == old_keys[b - 1]);
                    lemma_lex_total(kx@, old_keys[b - 1]@);
                } else if a < j && b > j {
                    assert(keys@[a] == old_keys[a] && keys@[b] == old_keys[b - 1]);
                } else if a < j && b < j {
                    assert(keys@[a] == old_keys[a] && keys@[b] == old_keys[b]);
                } else {
                    assert(keys@[a] == old_keys[a - 1] && keys@[b] == old_keys[b - 1]);
                }
            }
            assert forall|a: int| 0 <= a < keys@.len() implies (#[trigger] keys@[a])@ == script_key(
                out@[a]@,
            ) by {
                if a < j {
                    assert(keys@[a] == old_keys[a]);
                } else if a > j {
                    assert(keys@[a] == old_keys[a - 1]);
                }
            }
        }
        taken = taken + 1;
    }
    assert(input.take(n as int) =~= input);
    proof {
        assert forall|a: int, b: int| 0 <= a < b < out@.len() implies !lex_less(
            script_key(out@[b]@),
            script_key(out@[a]@),
        ) by {
            assert(keys@[a]@ == script_key(out@[a]@));
            assert(keys@[b]@ == script_key(out@[b]@));
        }
        assert forall|a: int, b: int| 0 <= a < b < out@.len() implies !lex_less(
            char_codes(lower_seq(file_name(out@[b]@))),
            char_codes(lower_seq(file_name(out@[a]@))),
        ) by {
            lemma_script_order_ignores_case(out@[b]@, out@[a]@);
            assert(keys@[a]@ == script_key(out@[a]@));
            assert(keys@[b]@ == script_key(out@[b]@));
        }
    }
    out
}

/// The scripts of one call, in running order, and the programs they need.
#[derive(Debug)]
pub struct CallPlan {
    pub scripts: Vec<String>,
    /// Some script is a `.cmd` file, run by `cmd`.
    pub needs_cmd: bool,
    /// Some script is a `.wcs` file, run by `pecmd`.
    pub needs_pecmd: bool,
}

/// Plans a hook call from the script paths found in the hook's directory
/// (files of other kinds already left out): hooks run only in Windows PE.
pub fn call(
    hook: HookStage,
    options: &CallOptions,
    environment: RuntimeEnvironment,
    discovered: Vec<String>,
) -> (r: Result<
    CallPlan,
    EliError,
>)
    ensures
        environment != RuntimeEnvironment::WindowsPE ==> (r matches Err(e) && e.kind
            == ErrorKind::Unsupported && e.message@ == "hook calling is only implemented for Windows PE"@),
        environment == RuntimeEnvironment::WindowsPE ==> (r matches Ok(plan) && {
            &&& plan.scripts@.map_values(|s: String| s@).to_multiset() == discovered@.map_values(
                |s: String| s@,
            ).to_multiset()
            &&& forall|a: int, b: int|
                0 <= a < b < plan.scripts@.len() ==> !lex_less(
                    script_key(plan.scripts@[b]@),
                    script_key(plan.scripts@[a]@),
                )
            &&& forall|a: int, b: int|
                0 <= a < b < plan.scripts@.len() ==> !lex_less(
                    char_codes(lower_seq(file_name(plan.scripts@[b]@))),
                    char_codes(lower_seq(file_name(plan.scripts@[a]@))),
                )
            &&& plan.needs_cmd == exists|k: int|
                0 <= k < plan.scripts@.len() && cmd_script(#[trigger] plan.scripts@[k]@)
            &&& plan.needs_pecmd == exists|k: int|
                0 <= k < plan.scripts@.len() && !cmd_script(#[trigger] plan.scripts@[k]@)
        }),
{
    if environment != RuntimeEnvironment::WindowsPE {
        return Err(
            EliError::new(
                ErrorKind::Unsupported,
                "hook calling is only implemented for Windows PE".to_owned(),
            ),
        );
    }
    let scripts = order_scripts(discovered);
    let mut needs_cmd = false;
    let mut needs_pecmd = false;
    let mut i: usize = 0;
    while i < scripts.len()
        invariant
            i <= scripts@.len(),
            needs_cmd == exists|k: int| 0 <= k < i && cmd_script(#[trigger] scripts@[k]@),
            needs_pecmd == exists|k: int| 0 <= k < i && !cmd_script(#[trigger] scripts@[k]@),
        decreases scripts.len() - i,
    {
        if is_cmd_script(scripts[i].as_str()) {
            needs_cmd = true;
        } else {
            needs_pecmd = true;
        }
        i = i + 1;
    }
    Ok(CallPlan { scripts, needs_cmd, needs_pecmd })
}

/// A lifecycle hook script configured on the boot disk.
#[derive(Debug, Clone)]
pub struct HookScript {
    pub hook: HookStage,
    /// The script's file name.
    pub script: String,
    pub path: String,
}

impl View for HookScript {
    type V = (HookStage, Seq<char>, Seq<char>);

    open spec fn view(&self) -> Self::V {
        (self.hook, self.script@, self.path@)
    }
}

/// Where a stage comes when stages are ordered by their names in ASCII
/// lower case: `beforelocalboost`, `beforepluginloading`,
/// `onbootfinished`, `ondesktopshown`, `ondiskfound`, `onexit`.
pub open spec fn stage_rank(s: HookStage) -> u64 {
    match s {
        HookStage::BeforeLocalBoost => 0,
        HookStage::BeforePluginLoading => 1,
        HookStage::OnBootFinished => 2,
        HookStage::OnDesktopShown => 3,
        HookStage::OnDiskFound => 4,
        HookStage::OnExit => 5,
    }
}

/// How listed scripts are ordered: by stage name, then by file name, both
/// in ASCII lower case.
pub open spec fn listing_key(s: (HookStage, Seq<char>, Seq<char>)) -> Seq<u64> {
    seq![stage_rank(s.0)] + crate::path::char_codes(lower_seq(s.1))
}

fn listing_key_of(s: &HookScript) -> (r: Vec<u64>)
    ensures
        r@ == listing_key(s@),
{
    let rank: u64 = match s.hook {
        HookStage::BeforeLocalBoost => 0,
        HookStage::BeforePluginLoading => 1,
        HookStage::OnBootFinished => 2,
        HookStage::OnDesktopShown => 3,
        HookStage::OnDiskFound => 4,
        HookStage::OnExit => 5,
    };
    let codes = crate::path::char_codes_of(&to_lower(&chars_of(s.script.as_str())));
    let mut key: Vec<u64> = vec![rank];
    let mut i: usize = 0;
    while i < codes.len()
        invariant
            i <= codes@.len(),
            key@ == seq![rank] + codes@.take(i as int),
        decreases codes.len() - i,
    {
        key.push(codes[i]);
        i = i + 1;
        assert(key@ =~= seq![rank] + codes@.take(i as int));
    }
    assert(codes@.take(codes@.len() as int) =~= codes@);
    key
}

/// The scripts found in the hook directories of the boot disk, ordered by
/// stage name and then by file name, ASCII case ignored.
pub fn list(found: Vec<HookScript>) -> (r: Vec<HookScript>)
    ensures
        r@.map_values(|h: HookScript| h@).to_multiset() == found@.map_values(|h: HookScript| h@).to_multiset(),
        forall|a: int, b: int|
            0 <= a < b < r@.len() ==> !lex_less(listing_key(r@[b]@), listing_key(r@[a]@)),
{
    let ghost orig = found@.map_values(|h: HookScript| h@);
    let mut rest = found;
    let mut pairs: Vec<(Vec<u64>, HookScript)> = Vec::new();
    let ghost mut taken: int = 0;
    assert(rest@.map_values(|h: HookScript| h@) =~= orig.skip(0));
    assert(crate::path::keyed_views(pairs@).map_values(|p: (Seq<u64>, (HookStage, Seq<char>, Seq<char>))| p.1) =~= orig.take(0));
    while rest.len() > 0
        invariant
            0 <= taken <= orig.len(),
            rest@.map_values(|h: HookScript| h@) == orig.skip(taken),
            crate::path::keyed_views(pairs@).map_values(
                |p: (Seq<u64>, (HookStage, Seq<char>, Seq<char>))| p.1,
            ) == orig.take(taken),
            forall|k: int| 0 <= k < pairs@.len() ==> (#[trigger] pairs@[k]).0@ == listing_key(pairs@[k].1@),
        decreases rest.len(),
    {
        let ghost before = rest@;
        let ghost old_pairs = pairs@;
        let h = rest.remove(0);
        proof {
            let views = before.map_values(|h: HookScript| h@);
            assert(views[0] == before[0]@);
            assert(views[0] == orig.skip(taken)[0]);
            assert(rest@ == before.remove(0));
            assert(rest@.map_values(|h: HookScript| h@) =~= views.drop_first());
            assert(views.drop_first() =~= orig.skip(taken + 1));
        }
        let ghost hv = h@;
        assert(hv == orig[taken]);
        let key = listing_key_of(&h);
        pairs.push((key, h));
        proof {
            let snd = |p: (Seq<u64>, (HookStage, Seq<char>, Seq<char>))| p.1;
            let n = old_pairs.len() as int;
            assert(pairs@[n].1@ == hv);
            let kv = crate::path::keyed_views(pairs@);
            assert(kv =~= crate::path::keyed_views(old_pairs).push((pairs@[n].0@, hv)));
            assert(kv.map_values(snd) =~= crate::path::keyed_views(old_pairs).map_values(snd).push(hv));
            assert(orig.take(taken + 1) =~= orig.take(taken).push(hv));
            taken = taken + 1;
        }
    }
    assert(orig.take(taken) =~= orig);
    let ghost unsorted = pairs@;
    let sorted = crate::path::sort_keyed(pairs);
    let ghost sorted_views = sorted@;
    let mut sorted = sorted;
    let mut out: Vec<HookScript> = Vec::new();
    let ghost mut k: int = 0;
    while sorted.len() > 0
        invariant
            0 <= k <= sorted_views.len(),
            sorted@ == sorted_views.skip(k),
            out@.len() == k,
            forall|j: int| 0 <= j < k ==> (#[trigger] out@[j])@ == sorted_views[j].1@,
        decreases sorted.len(),
    {
        let (_, h) = sorted.remove(0);
        assert(sorted@ =~= sorted_views.skip(k + 1));
        out.push(h);
        proof {
            k = k + 1;
        }
    }
    proof {
        broadcast use vstd::seq_lib::group_to_multiset_ensures;

        let snd = |p: (Seq<u64>, (HookStage, Seq<char>, Seq<char>))| p.1;
        crate::path::lemma_map_same_multiset(
            crate::path::keyed_views(sorted_views),
            crate::path::keyed_views(unsorted),
            snd,
        );
        assert(out@.map_values(|h: HookScript| h@) =~= crate::path::keyed_views(sorted_views).map_values(snd));
        assert forall|j: int| 0 <= j < sorted_views.len() implies #[trigger] sorted_views[j].0@
            == listing_key(sorted_views[j].1@) by {
            let v = crate::path::keyed_views(sorted_views)[j];
            assert(crate::path::keyed_views(sorted_views).contains(v));
            assert(crate::path::keyed_views(sorted_views).to_multiset().count(v) > 0);
            assert(crate::path::keyed_views(unsorted).contains(v));
            let i = choose|i: int| 0 <= i < crate::path::keyed_views(unsorted).len()
                && crate::path::keyed_views(unsorted)[i] == v;
            assert(unsorted[i].0@ == listing_key(unsorted[i].1@));
        }
        assert forall|a: int, b: int| 0 <= a < b < out@.len() implies !lex_less(
            listing_key(out@[b]@),
            listing_key(out@[a]@),
        ) by {
            assert(out@[a]@ == sorted_views[a].1@ && out@[b]@ == sorted_views[b].1@);
            assert(sorted_views[a].0@ == listing_key(sorted_views[a].1@));
            assert(sorted_views[b].0@ == listing_key(sorted_views[b].1@));
        }
    }
    out
}

} // verus!
