//! Batch tasks: planning of destinations, counting of outcomes, and verdicts.
use crate::error::VfsError;
use crate::pathname::{
    extension_spec, file_name_of, file_name_spec, parent_of, parent_spec, split_name, stem_spec,
};
use crate::scoped::path::{is_valid_path, normal_form, validate_file_operation_impl};
use crate::text::{
    after_last, before_last, concat2, concat3, concat4, concat5, decimal, decimal_injective,
    decimal_int, decimal_int_text, decimal_nonempty, decimal_text, last_pos, position_of,
    rsplit_once, text_after_last, trim_end_char, trim_end_matches, views,
};
use vstd::prelude::*;
use vstd::string::*;

verus! {

// ---------------------------------------------------------------- destinations
/// Stem and extension of a file name: the extension is empty where the name has no
/// dot, or only a leading one.
pub open spec fn stem_and_ext(name: Seq<char>) -> (Seq<char>, Seq<char>) {
    if last_pos(name, '.') > 0 {
        (before_last(name, '.'), after_last(name, '.'))
    } else {
        (name, Seq::empty())
    }
}

pub fn split_stem_and_ext(file_name: &str) -> (res: (String, String))
    ensures
        (res.0@, res.1@) == stem_and_ext(file_name@),
{
    proof {
        crate::text::last_pos_bounds(file_name@, '.');
    }
    match rsplit_once(file_name, '.') {
        Some((stem, ext)) => {
            if stem.is_empty() {
                (file_name.to_owned(), String::new())
            } else {
                (stem.to_owned(), ext.to_owned())
            }
        },
        None => (file_name.to_owned(), String::new()),
    }
}

/// The directory of a destination with its slash, or nothing.
pub open spec fn dir_part(path: Seq<char>) -> Seq<char> {
    if before_last(path, '/').len() == 0 {
        Seq::empty()
    } else {
        before_last(path, '/') + "/"@
    }
}

/// The destination `path` with the number `n` in brackets behind its stem.
pub open spec fn numbered(path: Seq<char>, n: nat) -> Seq<char> {
    let (stem, ext) = stem_and_ext(after_last(path, '/'));
    let tail = if ext.len() == 0 {
        ")"@
    } else {
        ")."@ + ext
    };
    dir_part(path) + (stem + " ("@ + decimal(n) + tail)
}

/// The first number from `n` on, up to ten thousand, whose destination is free.
pub open spec fn first_free(path: Seq<char>, reserved: Seq<Seq<char>>, n: nat) -> Option<nat>
    decreases 10001 - n,
{
    if n > 10000 {
        None
    } else if !reserved.contains(numbered(path, n)) {
        Some(n)
    } else {
        first_free(path, reserved, n + 1)
    }
}

/// The destination to use for `candidate` where those in `reserved` are taken.
pub open spec fn destination(candidate: Seq<char>, reserved: Seq<Seq<char>>) -> Seq<char> {
    if !reserved.contains(candidate) {
        candidate
    } else {
        match first_free(candidate, reserved, 1) {
            Some(n) => numbered(candidate, n),
            None => candidate,
        }
    }
}

fn push_reserved(reserved: &mut Vec<String>, name: &str)
    requires
        !views(old(reserved)@).contains(name@),
        views(old(reserved)@).no_duplicates(),
    ensures
        views(final(reserved)@) == views(old(reserved)@).push(name@),
        views(final(reserved)@).no_duplicates(),
{
    let ghost before = reserved@;
    reserved.push(name.to_owned());
    assert(views(reserved@) =~= views(before).push(name@));
}

/// Reserve a destination: the candidate itself, or with a number where it is taken.
pub fn reserve_batch_destination(candidate: String, reserved: &mut Vec<String>) -> (res: String)
    requires
        views(old(reserved)@).no_duplicates(),
    ensures
        res@ == destination(candidate@, views(old(reserved)@)),
        views(final(reserved)@).no_duplicates(),
        views(final(reserved)@) == if views(old(reserved)@).contains(res@) {
            views(old(reserved)@)
        } else {
            views(old(reserved)@).push(res@)
        },
{
    let ghost taken = views(reserved@);
    if position_of(reserved, candidate.as_str()).is_none() {
        push_reserved(reserved, candidate.as_str());
        return candidate;
    }
    let (dir, name): (String, String) = match rsplit_once(candidate.as_str(), '/') {
        Some((d, f)) => {
            if d.is_empty() {
                (String::new(), f.to_owned())
            } else {
                (concat2(d, "/"), f.to_owned())
            }
        },
        None => {
            assert(candidate@.skip(0) =~= candidate@);
            (String::new(), candidate.clone())
        },
    };
    let (stem, ext): (String, String) = split_stem_and_ext(name.as_str());
    let tail: String = if ext.as_str().is_empty() {
        ")".to_owned()
    } else {
        concat2(").", ext.as_str())
    };
    let mut idx: u64 = 1;
    while idx <= 10000
        invariant
            1 <= idx <= 10001,
            taken == views(reserved@),
            taken == views(old(reserved)@),
            taken.no_duplicates(),
            taken.contains(candidate@),
            dir@ == dir_part(candidate@),
            (stem@, ext@) == stem_and_ext(after_last(candidate@, '/')),
            tail@ == if ext@.len() == 0 {
                ")"@
            } else {
                ")."@ + ext@
            },
            first_free(candidate@, taken, 1) == first_free(candidate@, taken, idx as nat),
        decreases 10001 - idx,
    {
        let number: String = decimal_text(idx);
        let file: String = concat4(stem.as_str(), " (", number.as_str(), tail.as_str());
        let next: String = concat2(dir.as_str(), file.as_str());
        assert(next@ == numbered(candidate@, idx as nat));
        if position_of(reserved, next.as_str()).is_none() {
            push_reserved(reserved, next.as_str());
            return next;
        }
        idx += 1;
    }
    candidate
}

/// Different numbers give different destinations.
pub proof fn numbered_is_injective(path: Seq<char>, a: nat, b: nat)
    requires
        numbered(path, a) == numbered(path, b),
    ensures
        a == b,
{
    let (stem, ext) = stem_and_ext(after_last(path, '/'));
    let tail = if ext.len() == 0 {
        ")"@
    } else {
        ")."@ + ext
    };
    let head = dir_part(path) + (stem + " ("@);
    let x = numbered(path, a);
    let y = numbered(path, b);
    assert(x =~= head + decimal(a) + tail);
    assert(y =~= head + decimal(b) + tail);
    assert(decimal(a).len() == decimal(b).len());
    assert(x.subrange(head.len() as int, (head.len() + decimal(a).len()) as int) =~= decimal(a));
    assert(y.subrange(head.len() as int, (head.len() + decimal(b).len()) as int) =~= decimal(b));
    decimal_injective(a, b);
}

proof fn numbered_is_longer(path: Seq<char>, n: nat)
    ensures
        numbered(path, n) != path,
{
    crate::text::last_pos_bounds(path, '/');
    let name = after_last(path, '/');
    crate::text::last_pos_bounds(name, '.');
    reveal_strlit(" (");
    reveal_strlit(")");
    reveal_strlit(").");
    reveal_strlit("/");
    decimal_nonempty(n);
    let (stem, ext) = stem_and_ext(name);
    // With the number and its brackets the name is at least three characters longer,
    // while at most the slash before it is lost.
    if last_pos(name, '.') > 0 {
        assert(stem.len() + ext.len() + 1 == name.len());
    }
    assert(numbered(path, n).len() > path.len());
}

/// The numbered destinations from `a` to `b`.
spec fn numbered_set(path: Seq<char>, a: nat, b: nat) -> Set<Seq<char>>
    decreases b,
{
    if b < a {
        Set::empty()
    } else if b == 0 {
        set![numbered(path, 0)]
    } else {
        numbered_set(path, a, (b - 1) as nat).insert(numbered(path, b))
    }
}

proof fn numbered_set_facts(path: Seq<char>, b: nat)
    ensures
        numbered_set(path, 1, b).finite(),
        numbered_set(path, 1, b).len() == b,
        forall|s: Seq<char>| #[trigger]
            numbered_set(path, 1, b).contains(s) <==> exists|n: nat|
                1 <= n <= b && s == #[trigger] numbered(path, n),
    decreases b,
{
    if b > 0 {
        let prev = numbered_set(path, 1, (b - 1) as nat);
        numbered_set_facts(path, (b - 1) as nat);
        let cur = numbered_set(path, 1, b);
        assert(cur =~= prev.insert(numbered(path, b)));
        if prev.contains(numbered(path, b)) {
            let n = choose|n: nat| 1 <= n <= b - 1 && numbered(path, b) == #[trigger] numbered(
                path,
                n,
            );
            numbered_is_injective(path, n, b);
        }
        assert forall|s: Seq<char>| #[trigger] cur.contains(s) <==> exists|n: nat|
            1 <= n <= b && s == #[trigger] numbered(path, n) by {
            if cur.contains(s) {
                if s == numbered(path, b) {
                } else {
                    assert(prev.contains(s));
                    let n = choose|n: nat| 1 <= n <= b - 1 && s == #[trigger] numbered(path, n);
                    assert(s == numbered(path, n));
                }
            }
            if exists|n: nat| 1 <= n <= b && s == #[trigger] numbered(path, n) {
                let n = choose|n: nat| 1 <= n <= b && s == #[trigger] numbered(path, n);
                if n < b {
                    assert(prev.contains(s));
                }
            }
        }
    }
}

proof fn none_free_means_all_taken(path: Seq<char>, reserved: Seq<Seq<char>>, n: nat)
    requires
        first_free(path, reserved, n) is None,
    ensures
        forall|k: nat| n <= k <= 10000 ==> reserved.contains(#[trigger] numbered(path, k)),
    decreases 10001 - n,
{
    if n <= 10000 {
        none_free_means_all_taken(path, reserved, n + 1);
    }
}

proof fn first_free_is_free(path: Seq<char>, reserved: Seq<Seq<char>>, n: nat)
    ensures
        first_free(path, reserved, n) matches Some(k) ==> !reserved.contains(numbered(path, k)),
    decreases 10001 - n,
{
    if n <= 10000 && reserved.contains(numbered(path, n)) {
        first_free_is_free(path, reserved, n + 1);
    }
}

/// As long as no more than ten thousand destinations are taken, the one that is
/// reserved was free: no two files of a batch get the same.
pub proof fn reserved_destination_is_free(candidate: Seq<char>, reserved: Seq<Seq<char>>)
    requires
        reserved.no_duplicates(),
        reserved.len() <= 10000,
    ensures
        !reserved.contains(destination(candidate, reserved)),
{
    if reserved.contains(candidate) {
        first_free_is_free(candidate, reserved, 1);
        if first_free(candidate, reserved, 1) is None {
            none_free_means_all_taken(candidate, reserved, 1);
            let all = numbered_set(candidate, 1, 10000);
            numbered_set_facts(candidate, 10000);
            let taken = reserved.to_set();
            vstd::seq_lib::seq_to_set_is_finite(reserved);
            reserved.unique_seq_to_set();
            let more = all.insert(candidate);
            assert(!all.contains(candidate)) by {
                if all.contains(candidate) {
                    let n = choose|n: nat|
                        1 <= n <= 10000 && candidate == #[trigger] numbered(candidate, n);
                    numbered_is_longer(candidate, n);
                }
            }
            assert(more.subset_of(taken)) by {
                assert forall|s: Seq<char>| more.contains(s) implies taken.contains(s) by {
                    if s != candidate {
                        let n = choose|n: nat|
                            1 <= n <= 10000 && s == #[trigger] numbered(candidate, n);
                        assert(reserved.contains(numbered(candidate, n)));
                    }
                }
            }
            vstd::set_lib::lemma_len_subset(more, taken);
        }
    }
}

/// Where a file goes when it is moved or copied to a directory.
pub open spec fn base_destination_spec(src: Seq<char>, dst_dir: Seq<char>) -> Seq<char> {
    trim_end_char(dst_dir, '/') + "/"@ + after_last(src, '/')
}

pub fn base_destination(src: &str, dst_dir: &str) -> (res: String)
    ensures
        res@ == base_destination_spec(src@, dst_dir@),
{
    concat3(trim_end_matches(dst_dir, '/'), "/", text_after_last(src, '/'))
}

/// The destinations of a batch, planned one file after the other.
pub struct BatchPlan {
    reserved: Vec<String>,
    plans: Vec<(String, String)>,
}

impl BatchPlan {
    pub closed spec fn taken(self) -> Seq<Seq<char>> {
        views(self.reserved@)
    }

    /// Sources and destinations so far.
    pub closed spec fn view(self) -> Seq<(Seq<char>, Seq<char>)> {
        self.plans@.map_values(|p: (String, String)| (p.0@, p.1@))
    }

    /// No destination is reserved twice, and every planned destination is reserved.
    pub open spec fn wf(self) -> bool {
        &&& self.taken().no_duplicates()
        &&& self.taken().len() <= self@.len()
        &&& forall|i: int| 0 <= i < self@.len() ==> self.taken().contains((#[trigger] self@[i]).1)
    }

    pub fn new() -> (res: BatchPlan)
        ensures
            res.wf(),
            res@.len() == 0,
            res.taken().len() == 0,
    {
        BatchPlan { reserved: Vec::new(), plans: Vec::new() }
    }

    /// Plan one file, for which the storage proposed `candidate`.
    pub fn add_file(&mut self, src: String, candidate: String)
        requires
            old(self).wf(),
        ensures
            final(self).wf(),
            final(self)@ == old(self)@.push(
                (src@, destination(candidate@, old(self).taken())),
            ),
            final(self).taken() == if old(self).taken().contains(
                destination(candidate@, old(self).taken()),
            ) {
                old(self).taken()
            } else {
                old(self).taken().push(destination(candidate@, old(self).taken()))
            },
    {
        let ghost before = *self;
        let dst: String = reserve_batch_destination(candidate, &mut self.reserved);
        self.plans.push((src, dst));
        proof {
            assert(self@ =~= before@.push((src@, dst@)));
            assert(self.taken().contains(dst@)) by {
                if !before.taken().contains(dst@) {
                    assert(self.taken()[self.taken().len() - 1] == dst@);
                }
            }
            assert forall|i: int| 0 <= i < self@.len() implies self.taken().contains(
                (#[trigger] self@[i]).1,
            ) by {
                if i < before@.len() {
                    assert(self@[i] == before@[i]);
                    let k = choose|k: int|
                        0 <= k < before.taken().len() && before.taken()[k] == before@[i].1;
                    assert(self.taken()[k] == before@[i].1);
                }
            }
        }
    }

    /// The plan as pairs of source and destination.
    pub fn into_plans(self) -> (res: Vec<(String, String)>)
        ensures
            res@.map_values(|p: (String, String)| (p.0@, p.1@)) == self@,
    {
        self.plans
    }
}

/// The destinations of a batch of up to ten thousand and one files differ from each
/// other, file by file.
pub proof fn batch_destinations_differ(before: BatchPlan, candidate: Seq<char>)
    requires
        before.wf(),
        before@.len() <= 10000,
    ensures
        forall|i: int|
            0 <= i < before@.len() ==> (#[trigger] before@[i]).1 != destination(
                candidate,
                before.taken(),
            ),
{
    reserved_destination_is_free(candidate, before.taken());
}

// ---------------------------------------------------------------- unique paths
/// Attempt number `k` at a path that is not taken: the path itself, then its stem
/// with an underscore and the number.
pub open spec fn unique_attempt(path: Seq<char>, k: nat) -> Seq<char> {
    let parent = match parent_spec(path) {
        Some(p) => p,
        None => "/"@,
    };
    let stem = match file_name_spec(path) {
        Some(n) => stem_spec(n),
        None => "file"@,
    };
    let ext = match file_name_spec(path) {
        Some(n) => match extension_spec(n) {
            Some(e) => "."@ + e,
            None => Seq::empty(),
        },
        None => Seq::empty(),
    };
    if k == 0 {
        path
    } else {
        trim_end_char(parent, '/') + "/"@ + (stem + "_"@ + decimal(k) + ext)
    }
}

/// Search for a path that is not taken. The caller tells of each attempt whether it
/// is; the hundredth number is used unasked.
pub struct UniquePathSearch {
    dir: String,
    stem: String,
    ext: String,
    current: String,
    counter: u64,
    path: Ghost<Seq<char>>,
}

impl UniquePathSearch {
    pub closed spec fn path(self) -> Seq<char> {
        self.path@
    }

    /// Number of the attempt.
    pub closed spec fn attempt(self) -> nat {
        self.counter as nat
    }

    pub closed spec fn wf(self) -> bool {
        &&& self.counter <= 100
        &&& self.current@ == unique_attempt(self.path@, self.counter as nat)
        &&& self.dir@ == trim_end_char(
            match parent_spec(self.path@) {
                Some(p) => p,
                None => "/"@,
            },
            '/',
        )
        &&& self.stem@ == match file_name_spec(self.path@) {
            Some(n) => stem_spec(n),
            None => "file"@,
        }
        &&& self.ext@ == match file_name_spec(self.path@) {
            Some(n) => match extension_spec(n) {
                Some(e) => "."@ + e,
                None => Seq::empty(),
            },
            None => Seq::empty(),
        }
    }

    pub fn new(path: &str) -> (res: UniquePathSearch)
        ensures
            res.wf(),
            res.path() == path@,
            res.attempt() == 0,
    {
        let parent: String = match parent_of(path) {
            Some(p) => p,
            None => "/".to_owned(),
        };
        let (stem, ext): (String, String) = match file_name_of(path) {
            Some(name) => {
                let (stem, ext): (String, Option<String>) = split_name(name.as_str());
                match ext {
                    Some(e) => (stem, concat2(".", e.as_str())),
                    None => (stem, String::new()),
                }
            },
            None => ("file".to_owned(), String::new()),
        };
        UniquePathSearch {
            dir: trim_end_matches(parent.as_str(), '/').to_owned(),
            stem,
            ext,
            current: path.to_owned(),
            counter: 0,
            path: Ghost(path@),
        }
    }

    pub fn current(&self) -> (res: &str)
        requires
            self.wf(),
        ensures
            res@ == unique_attempt(self.path(), self.attempt()),
    {
        self.current.as_str()
    }

    /// Take note of whether the current attempt is taken; tells whether the search is
    /// over.
    pub fn advance(&mut self, taken: bool) -> (res: bool)
        requires
            old(self).wf(),
            old(self).attempt() < 100,
        ensures
            final(self).wf(),
            final(self).path() == old(self).path(),
            if taken {
                final(self).attempt() == old(self).attempt() + 1 && res == (final(self).attempt()
                    == 100)
            } else {
                final(self).attempt() == old(self).attempt() && res
            },
    {
        if !taken {
            return true;
        }
        self.counter = self.counter + 1;
        let number: String = decimal_text(self.counter);
        let file: String = concat4(
            self.stem.as_str(),
            "_",
            number.as_str(),
            self.ext.as_str(),
        );
        self.current = concat3(self.dir.as_str(), "/", file.as_str());
        self.counter == 100
    }
}

// ---------------------------------------------------------------- runs
/// What became of one file of a batch.
#[derive(Debug, Clone, Copy, PartialEq, Eq, Structural)]
pub enum ItemOutcome {
    Done,
    Failed,
    /// The task was cancelled before the file's turn.
    NotTried,
}

/// What to do after a file.
#[derive(Debug, Clone, Copy, PartialEq, Eq, Structural)]
pub struct Reaction {
    /// No further file is waited for.
    pub stop: bool,
    /// The file is logged, as a success or as a failure.
    pub log_success: Option<bool>,
    /// The progress is reported.
    pub report: bool,
}

/// Counts of a batch.
#[derive(Debug, Clone, Copy, PartialEq, Eq, Structural)]
pub struct VfsBatchExecutor {
    pub total: usize,
    pub success: usize,
    pub failed: usize,
}

impl VfsBatchExecutor {
    pub open spec fn processed(self) -> int {
        self.success + self.failed
    }

    pub open spec fn wf(self) -> bool {
        self.processed() <= self.total
    }

    pub fn new(total: usize) -> (res: VfsBatchExecutor)
        ensures
            res.wf(),
            res.total == total,
            res.success == 0,
            res.failed == 0,
    {
        VfsBatchExecutor { total, success: 0, failed: 0 }
    }

    pub open spec fn reaction(self, cancelled: bool, outcome: ItemOutcome) -> Reaction {
        if cancelled || outcome == ItemOutcome::NotTried {
            Reaction { stop: true, log_success: None, report: false }
        } else {
            let n = self.processed() + 1;
            Reaction {
                stop: false,
                log_success: Some(outcome == ItemOutcome::Done),
                report: n % 5 == 0 || n == self.total,
            }
        }
    }

    pub open spec fn after_outcome(self, cancelled: bool, outcome: ItemOutcome) -> VfsBatchExecutor {
        if cancelled || outcome == ItemOutcome::NotTried {
            self
        } else if outcome == ItemOutcome::Done {
            VfsBatchExecutor { success: (self.success + 1) as usize, ..self }
        } else {
            VfsBatchExecutor { failed: (self.failed + 1) as usize, ..self }
        }
    }

    /// Count the outcome of one file, unless the task was cancelled: then the run
    /// stops. The progress is reported with every fifth file and the last.
    pub fn on_outcome(&mut self, cancelled: bool, outcome: ItemOutcome) -> (res: Reaction)
        requires
            old(self).wf(),
            old(self).processed() < old(self).total,
        ensures
            final(self).wf(),
            final(self).total == old(self).total,
            res == old(self).reaction(cancelled, outcome),
            *final(self) == old(self).after_outcome(cancelled, outcome),
    {
        if cancelled || outcome == ItemOutcome::NotTried {
            return Reaction { stop: true, log_success: None, report: false };
        }
        if outcome == ItemOutcome::Done {
            self.success = self.success + 1;
        } else {
            self.failed = self.failed + 1;
        }
        let n: usize = self.success + self.failed;
        Reaction {
            stop: false,
            log_success: Some(outcome == ItemOutcome::Done),
            report: n % 5 == 0 || n == self.total,
        }
    }

    /// The message that goes with the progress.
    pub fn progress_message(&self) -> (res: String)
        requires
            self.wf(),
        ensures
            res@ == "Processed "@ + decimal(self.processed() as nat) + "/"@ + decimal(
                self.total as nat,
            ) + (" (Success: "@ + decimal(self.success as nat) + ", Failed: "@ + decimal(
                self.failed as nat,
            ) + ")"@),
    {
        let head: String = concat4(
            "Processed ",
            decimal_text((self.success + self.failed) as u64).as_str(),
            "/",
            decimal_text(self.total as u64).as_str(),
        );
        let tail: String = concat5(
            " (Success: ",
            decimal_text(self.success as u64).as_str(),
            ", Failed: ",
            decimal_text(self.failed as u64).as_str(),
            ")",
        );
        concat2(head.as_str(), tail.as_str())
    }

    pub open spec fn is_verdict(self, timed_out: bool, res: TaskVerdict) -> bool {
        match res {
            TaskVerdict::Success => !timed_out && self.failed == 0,
            TaskVerdict::Failure(text) => if timed_out {
                text@ == "Task timed out"@
            } else {
                self.failed > 0 && text@ == "Completed with failures: "@ + decimal(
                    self.success as nat,
                ) + " success, "@ + decimal(self.failed as nat) + " failed"@
            },
        }
    }

    /// The verdict on a run that came to its end, or timed out.
    pub fn verdict(&self, timed_out: bool) -> (res: TaskVerdict)
        ensures
            self.is_verdict(timed_out, res),
    {
        if timed_out {
            TaskVerdict::Failure("Task timed out".to_owned())
        } else if self.failed == 0 {
            TaskVerdict::Success
        } else {
            TaskVerdict::Failure(
                concat5(
                    "Completed with failures: ",
                    decimal_text(self.success as u64).as_str(),
                    " success, ",
                    decimal_text(self.failed as u64).as_str(),
                    " failed",
                ),
            )
        }
    }
}

/// How a task ended.
#[derive(Debug)]
pub enum TaskVerdict {
    Success,
    Failure(String),
}

// ---------------------------------------------------------------- compression
/// Temporary directory in which a task gathers what is compressed.
pub fn compress_temp_dir(timestamp: i64, task_id: &str) -> (res: String)
    ensures
        res@ == "/.virtual/tmp/batch_"@ + decimal_int(timestamp as int) + "_"@ + task_id@,
{
    concat4(
        "/.virtual/tmp/batch_",
        decimal_int_text(timestamp).as_str(),
        "_",
        task_id,
    )
}

/// What is copied for a path, and where to: nothing for a path that names no file,
/// or, where paths are checked, for one that is not valid.
pub open spec fn gather_one(path: Seq<char>, temp_dir: Seq<char>, checked: bool) -> Option<(
    Seq<char>,
    Seq<char>,
)> {
    let logical = if checked {
        normal_form(path)
    } else {
        path
    };
    if checked && !is_valid_path(path) {
        None
    } else {
        match file_name_spec(logical) {
            Some(name) => Some((logical, temp_dir + "/"@ + name)),
            None => None,
        }
    }
}

/// A file to copy: position of its path in the batch, source, destination.
pub type Gathered = (usize, String, String);

/// What is copied for all paths, in order, with the positions of the paths.
pub open spec fn gather_all(paths: Seq<Seq<char>>, temp_dir: Seq<char>, checked: bool) -> Seq<(
    int,
    Seq<char>,
    Seq<char>,
)>
    decreases paths.len(),
{
    if paths.len() == 0 {
        Seq::empty()
    } else {
        let head = gather_all(paths.drop_last(), temp_dir, checked);
        match gather_one(paths.last(), temp_dir, checked) {
            Some(pair) => head.push((paths.len() - 1, pair.0, pair.1)),
            None => head,
        }
    }
}

pub open spec fn gathered_views(list: Seq<Gathered>) -> Seq<(int, Seq<char>, Seq<char>)> {
    list.map_values(|g: Gathered| (g.0 as int, g.1@, g.2@))
}

/// What a compression task copies, and where to.
pub fn compress_sources(paths: &Vec<String>, temp_dir: &str, checked: bool) -> (res: Vec<Gathered>)
    ensures
        gathered_views(res@) == gather_all(views(paths@), temp_dir@, checked),
{
    let mut out: Vec<Gathered> = Vec::new();
    let mut i: usize = 0;
    assert(views(paths@).take(0) =~= Seq::<Seq<char>>::empty());
    assert(gathered_views(out@) =~= Seq::<(int, Seq<char>, Seq<char>)>::empty());
    while i < paths.len()
        invariant
            i <= paths@.len(),
            gathered_views(out@) == gather_all(views(paths@).take(i as int), temp_dir@, checked),
        decreases paths@.len() - i,
    {
        let ghost prior = out@;
        assert(views(paths@).take(i + 1).drop_last() =~= views(paths@).take(i as int));
        assert(views(paths@).take(i + 1).last() == paths@[i as int]@);
        let logical: Option<String> = if checked {
            match validate_file_operation_impl(paths[i].as_str()) {
                Ok(p) => Some(p),
                Err(_) => None,
            }
        } else {
            Some(paths[i].clone())
        };
        match logical {
            Some(logical) => {
                match file_name_of(logical.as_str()) {
                    Some(name) => {
                        let target: String = concat3(temp_dir, "/", name.as_str());
                        out.push((i, logical, target));
                        assert(gathered_views(out@) =~= gathered_views(prior).push(
                            (i as int, logical@, target@),
                        ));
                    },
                    None => {},
                }
            },
            None => {},
        }
        i += 1;
    }
    assert(views(paths@).take(i as int) =~= views(paths@));
    out
}

/// How the gathering and compressing of a task went.
#[derive(Debug)]
pub enum CompressOutcome {
    /// The temporary directory could not be created.
    NoTempDir(String),
    /// Nothing was gathered.
    NothingPrepared,
    Compressed,
    CompressFailed(String),
    TimedOut,
}

/// The verdict on a compression task.
pub fn compress_verdict(outcome: &CompressOutcome) -> (res: TaskVerdict)
    ensures
        match *outcome {
            CompressOutcome::Compressed => res is Success,
            CompressOutcome::NoTempDir(e) => res matches TaskVerdict::Failure(t) && t@
                == "Failed to create temp dir: "@ + e@,
            CompressOutcome::NothingPrepared => res matches TaskVerdict::Failure(t) && t@
                == "No files were successfully prepared for compression"@,
            CompressOutcome::CompressFailed(e) => res matches TaskVerdict::Failure(t) && t@
                == "Compression failed: "@ + e@,
            CompressOutcome::TimedOut => res matches TaskVerdict::Failure(t) && t@
                == "Compression task timed out after 24 hours"@,
        },
{
    match outcome {
        CompressOutcome::Compressed => TaskVerdict::Success,
        CompressOutcome::NoTempDir(e) => TaskVerdict::Failure(
            concat2("Failed to create temp dir: ", e.as_str()),
        ),
        CompressOutcome::NothingPrepared => TaskVerdict::Failure(
            "No files were successfully prepared for compression".to_owned(),
        ),
        CompressOutcome::CompressFailed(e) => TaskVerdict::Failure(
            concat2("Compression failed: ", e.as_str()),
        ),
        CompressOutcome::TimedOut => TaskVerdict::Failure(
            "Compression task timed out after 24 hours".to_owned(),
        ),
    }
}

pub open spec fn cleaned_up(
    outcome: CompressOutcome,
    temp_dir: Seq<char>,
    paths: Seq<Seq<char>>,
    delete_source: bool,
) -> Seq<Seq<char>> {
    match outcome {
        CompressOutcome::NoTempDir(_) => Seq::empty(),
        CompressOutcome::TimedOut => Seq::empty(),
        CompressOutcome::Compressed => if delete_source {
            seq![temp_dir] + paths
        } else {
            seq![temp_dir]
        },
        _ => seq![temp_dir],
    }
}

/// What a compression task removes when it is done, in order: the temporary
/// directory, where there is one, and the sources, where they were compressed and
/// are not to be kept.
pub fn compress_cleanup(
    outcome: &CompressOutcome,
    temp_dir: &str,
    paths: &Vec<String>,
    delete_source: bool,
) -> (res: Vec<String>)
    ensures
        views(res@) == cleaned_up(*outcome, temp_dir@, views(paths@), delete_source),
{
    let mut out: Vec<String> = Vec::new();
    let sources: bool = match outcome {
        CompressOutcome::NoTempDir(_) => {
            assert(views(out@) =~= Seq::<Seq<char>>::empty());
            return out;
        },
        CompressOutcome::TimedOut => {
            assert(views(out@) =~= Seq::<Seq<char>>::empty());
            return out;
        },
        CompressOutcome::Compressed => delete_source,
        _ => false,
    };
    out.push(temp_dir.to_owned());
    assert(views(out@) =~= seq![temp_dir@]);
    if sources {
        let mut i: usize = 0;
        assert(views(paths@).take(0) =~= Seq::<Seq<char>>::empty());
        while i < paths.len()
            invariant
                i <= paths@.len(),
                views(out@) =~= seq![temp_dir@] + views(paths@).take(i as int),
            decreases paths@.len() - i,
        {
            let ghost prior = out@;
            out.push(paths[i].clone());
            assert(views(out@) =~= views(prior).push(paths@[i as int]@));
            assert(views(paths@).take(i + 1) =~= views(paths@).take(i as int).push(
                paths@[i as int]@,
            ));
            i += 1;
        }
        assert(views(paths@).take(i as int) =~= views(paths@));
    }
    out
}

/// Where a compression task stands.
#[derive(Debug, Clone, Copy, PartialEq, Eq, Structural)]
pub enum CompressPhase {
    /// The temporary directory is to be created.
    Preparing,
    /// The files are being copied to it.
    Gathering,
    /// It is being compressed.
    Compressing,
    Over,
}

/// What a compression task does next.
#[derive(Debug)]
pub enum CompressStep<'a> {
    CreateTempDir,
    /// Copy the file of the path with this position.
    Copy { position: usize, from: &'a str, to: &'a str },
    Compress,
    Nothing,
}

/// A compression task: the temporary directory is created, the files are copied
/// there one after the other, and it is compressed where something was copied.
pub struct CompressRun {
    temp_dir: String,
    sources: Vec<Gathered>,
    /// A copy counts whether it succeeded or not.
    every_attempt_counts: bool,
    phase: CompressPhase,
    at: usize,
    copied: usize,
    outcome: Option<CompressOutcome>,
}

impl CompressRun {
    pub closed spec fn dir(self) -> Seq<char> {
        self.temp_dir@
    }

    /// The files to copy.
    pub closed spec fn files(self) -> Seq<(int, Seq<char>, Seq<char>)> {
        gathered_views(self.sources@)
    }

    pub closed spec fn counts_all(self) -> bool {
        self.every_attempt_counts
    }

    pub closed spec fn stands_at(self) -> CompressPhase {
        self.phase
    }

    /// Files that have had their turn.
    pub closed spec fn turn(self) -> nat {
        self.at as nat
    }

    /// Files that count as copied.
    pub closed spec fn counted(self) -> nat {
        self.copied as nat
    }

    pub closed spec fn ending(self) -> Option<CompressOutcome> {
        self.outcome
    }

    /// Nothing is compressed before every file had its turn and something was copied;
    /// the task is over exactly where its outcome is known.
    pub open spec fn wf(self) -> bool {
        &&& self.counted() <= self.turn() <= self.files().len() <= usize::MAX
        &&& self.stands_at() == CompressPhase::Preparing ==> self.turn() == 0
        &&& self.stands_at() == CompressPhase::Gathering ==> self.turn() < self.files().len()
        &&& self.stands_at() == CompressPhase::Compressing ==> self.turn() == self.files().len()
            && self.counted() > 0
        &&& self.stands_at() == CompressPhase::Over <==> self.ending() is Some
        &&& self.ending() == Some(CompressOutcome::Compressed) ==> self.counted() > 0
    }

    pub open spec fn same_task(self, other: CompressRun) -> bool {
        &&& self.dir() == other.dir()
        &&& self.files() == other.files()
        &&& self.counts_all() == other.counts_all()
    }

    pub fn new(paths: &Vec<String>, temp_dir: &str, checked: bool, every_attempt_counts: bool) -> (res:
        CompressRun)
        ensures
            res.wf(),
            res.dir() == temp_dir@,
            res.files() == gather_all(views(paths@), temp_dir@, checked),
            res.counts_all() == every_attempt_counts,
            res.stands_at() == CompressPhase::Preparing,
            res.counted() == 0,
    {
        let sources: Vec<Gathered> = compress_sources(paths, temp_dir, checked);
        let n: usize = sources.len();
        CompressRun {
            temp_dir: temp_dir.to_owned(),
            sources,
            every_attempt_counts,
            phase: CompressPhase::Preparing,
            at: 0,
            copied: 0,
            outcome: None,
        }
    }

    /// What the task does next.
    pub fn next(&self) -> (res: CompressStep<'_>)
        requires
            self.wf(),
        ensures
            match res {
                CompressStep::CreateTempDir => self.stands_at() == CompressPhase::Preparing,
                CompressStep::Copy { position, from, to } => self.stands_at()
                    == CompressPhase::Gathering && (position as int, from@, to@)
                    == self.files()[self.turn() as int],
                CompressStep::Compress => self.stands_at() == CompressPhase::Compressing,
                CompressStep::Nothing => self.stands_at() == CompressPhase::Over,
            },
    {
        match self.phase {
            CompressPhase::Preparing => CompressStep::CreateTempDir,
            CompressPhase::Gathering => {
                let g: &Gathered = &self.sources[self.at];
                assert(self.files()[self.at as int] == (g.0 as int, g.1@, g.2@));
                CompressStep::Copy { position: g.0, from: g.1.as_str(), to: g.2.as_str() }
            },
            CompressPhase::Compressing => CompressStep::Compress,
            CompressPhase::Over => CompressStep::Nothing,
        }
    }

    /// Where the task stands when all files up to `turn` had their turn and `counted`
    /// of them were copied.
    pub open spec fn gathered_up_to(self, turn: nat, counted: nat) -> bool {
        &&& self.turn() == turn
        &&& self.counted() == counted
        &&& if turn < self.files().len() {
            self.stands_at() == CompressPhase::Gathering
        } else if counted > 0 {
            self.stands_at() == CompressPhase::Compressing
        } else {
            self.ending() == Some(CompressOutcome::NothingPrepared)
        }
    }

    /// Take note of how the step went: `error` tells of its failure.
    pub fn report(&mut self, error: Option<String>)
        requires
            old(self).wf(),
            old(self).stands_at() != CompressPhase::Over,
        ensures
            final(self).wf(),
            final(self).same_task(*old(self)),
            match old(self).stands_at() {
                CompressPhase::Preparing => match error {
                    Some(e) => final(self).ending() == Some(CompressOutcome::NoTempDir(e)),
                    None => final(self).gathered_up_to(0, old(self).counted()),
                },
                CompressPhase::Gathering => final(self).gathered_up_to(
                    old(self).turn() + 1,
                    if error is None || old(self).counts_all() {
                        old(self).counted() + 1
                    } else {
                        old(self).counted()
                    },
                ),
                CompressPhase::Compressing => match error {
                    Some(e) => final(self).ending() == Some(CompressOutcome::CompressFailed(e)),
                    None => final(self).ending() == Some(CompressOutcome::Compressed),
                },
                CompressPhase::Over => true,
            },
    {
        let n: usize = self.sources.len();
        match self.phase {
            CompressPhase::Preparing => match error {
                Some(e) => {
                    self.end(CompressOutcome::NoTempDir(e));
                },
                None => {
                    self.go_on();
                },
            },
            CompressPhase::Gathering => {
                assert(self.at < n);
                if error.is_none() || self.every_attempt_counts {
                    self.copied = self.copied + 1;
                }
                self.at = self.at + 1;
                self.go_on();
            },
            CompressPhase::Compressing => match error {
                Some(e) => {
                    self.end(CompressOutcome::CompressFailed(e));
                },
                None => {
                    self.end(CompressOutcome::Compressed);
                },
            },
            CompressPhase::Over => {},
        }
    }

    fn go_on(&mut self)
        requires
            old(self).outcome is None,
            old(self).copied <= old(self).at <= old(self).sources@.len() <= usize::MAX,
        ensures
            final(self).wf(),
            final(self).same_task(*old(self)),
            final(self).gathered_up_to(old(self).at as nat, old(self).copied as nat),
    {
        if self.at < self.sources.len() {
            self.phase = CompressPhase::Gathering;
        } else if self.copied > 0 {
            self.phase = CompressPhase::Compressing;
        } else {
            self.phase = CompressPhase::Over;
            self.outcome = Some(CompressOutcome::NothingPrepared);
        }
    }

    fn end(&mut self, outcome: CompressOutcome)
        requires
            old(self).copied <= old(self).at <= old(self).sources@.len() <= usize::MAX,
            outcome == CompressOutcome::Compressed ==> old(self).copied > 0,
        ensures
            final(self).wf(),
            final(self).same_task(*old(self)),
            final(self).ending() == Some(outcome),
    {
        self.phase = CompressPhase::Over;
        self.outcome = Some(outcome);
    }

    /// How the task ended, where it did.
    pub fn into_outcome(self) -> (res: Option<CompressOutcome>)
        ensures
            res == self.ending(),
    {
        self.outcome
    }
}

/// A task that compressed something had copied something.
pub proof fn compressed_was_gathered(run: CompressRun)
    requires
        run.wf(),
        run.ending() == Some(CompressOutcome::Compressed),
    ensures
        run.counted() > 0,
        run.files().len() > 0,
{
}

pub open spec fn decompress_text(processed: nat, total: nat, failed: nat) -> Seq<char> {
    "Processed "@ + decimal(processed) + "/"@ + decimal(total) + (" (Failed: "@ + decimal(failed)
        + ")"@)
}

/// The message that goes with the progress of a decompression task.
pub fn decompress_message(processed: usize, total: usize, failed: usize) -> (res: String)
    ensures
        res@ == decompress_text(processed as nat, total as nat, failed as nat),
{
    let head: String = concat4(
        "Processed ",
        decimal_text(processed as u64).as_str(),
        "/",
        decimal_text(total as u64).as_str(),
    );
    let tail: String = concat3(" (Failed: ", decimal_text(failed as u64).as_str(), ")");
    concat2(head.as_str(), tail.as_str())
}

/// A decompression task succeeds where every archive was unpacked in time.
pub open spec fn is_decompress_verdict(verdict: TaskVerdict, failed: nat, timed_out: bool) -> bool {
    match verdict {
        TaskVerdict::Success => !timed_out && failed == 0,
        TaskVerdict::Failure(t) => if timed_out {
            t@ == "Decompression task timed out after 24 hours"@
        } else {
            failed > 0 && t@ == "Decompression completed with "@ + decimal(failed) + " failures"@
        },
    }
}

/// The verdict on a decompression task.
pub fn decompress_verdict(failed: usize, timed_out: bool) -> (res: TaskVerdict)
    ensures
        is_decompress_verdict(res, failed as nat, timed_out),
{
    if timed_out {
        TaskVerdict::Failure("Decompression task timed out after 24 hours".to_owned())
    } else if failed == 0 {
        TaskVerdict::Success
    } else {
        TaskVerdict::Failure(
            concat3(
                "Decompression completed with ",
                decimal_text(failed as u64).as_str(),
                " failures",
            ),
        )
    }
}

/// A decompression task: the archives are unpacked in order, and a failure does not
/// stop it.
#[derive(Debug, Clone, Copy, PartialEq, Eq, Structural)]
pub struct DecompressRun {
    pub total: usize,
    pub processed: usize,
    pub failed: usize,
}

impl DecompressRun {
    pub open spec fn wf(self) -> bool {
        self.failed <= self.processed <= self.total
    }

    pub fn new(total: usize) -> (res: DecompressRun)
        ensures
            res.wf(),
            res == (DecompressRun { total, processed: 0, failed: 0 }),
    {
        DecompressRun { total, processed: 0, failed: 0 }
    }

    /// Position of the archive to unpack next.
    pub fn next(&self) -> (res: Option<usize>)
        ensures
            res == if self.processed < self.total {
                Some(self.processed)
            } else {
                None
            },
    {
        if self.processed < self.total {
            Some(self.processed)
        } else {
            None
        }
    }

    /// Count an archive; gives the message that goes with the progress.
    pub fn report(&mut self, unpacked: bool) -> (res: String)
        requires
            old(self).wf(),
            old(self).processed < old(self).total,
        ensures
            final(self).wf(),
            final(self).total == old(self).total,
            final(self).processed == old(self).processed + 1,
            final(self).failed == old(self).failed + if unpacked {
                0int
            } else {
                1
            },
            res@ == decompress_text(
                final(self).processed as nat,
                final(self).total as nat,
                final(self).failed as nat,
            ),
    {
        self.processed = self.processed + 1;
        if !unpacked {
            self.failed = self.failed + 1;
        }
        decompress_message(self.processed, self.total, self.failed)
    }

    /// The verdict on a task that came to its end, or timed out.
    pub fn verdict(&self, timed_out: bool) -> (res: TaskVerdict)
        ensures
            is_decompress_verdict(res, self.failed as nat, timed_out),
    {
        decompress_verdict(self.failed, timed_out)
    }
}

/// How a video compression task went.
#[derive(Debug)]
pub enum VideoOutcome {
    /// The videos could not be looked for, or the place of a result not be found.
    ScanFailed(String),
    NoVideos,
    Cancelled,
    Finished { success: usize, failed: usize },
    TimedOut,
}

pub open spec fn video_text(processed: nat, total: nat, success: nat, failed: nat) -> Seq<char> {
    "Processed "@ + decimal(processed) + "/"@ + decimal(total) + (" videos (Success: "@ + decimal(
        success,
    ) + ", Failed: "@ + decimal(failed) + ")"@)
}

/// The message that goes with the progress of a video compression task.
pub fn video_message(processed: usize, total: usize, success: usize, failed: usize) -> (res: String)
    ensures
        res@ == video_text(processed as nat, total as nat, success as nat, failed as nat),
{
    let head: String = concat4(
        "Processed ",
        decimal_text(processed as u64).as_str(),
        "/",
        decimal_text(total as u64).as_str(),
    );
    let tail: String = concat5(
        " videos (Success: ",
        decimal_text(success as u64).as_str(),
        ", Failed: ",
        decimal_text(failed as u64).as_str(),
        ")",
    );
    concat2(head.as_str(), tail.as_str())
}

/// What a video compression task does next.
#[derive(Debug)]
pub enum VideoStep {
    /// Compress the video at this position.
    Compress(usize),
    Over(VideoOutcome),
}

/// A video compression task: the videos are compressed in order, until one is left
/// over because the task was cancelled.
#[derive(Debug, Clone, Copy, PartialEq, Eq, Structural)]
pub struct VideoRun {
    pub total: usize,
    pub success: usize,
    pub failed: usize,
}

impl VideoRun {
    pub open spec fn processed(self) -> int {
        self.success + self.failed
    }

    pub open spec fn wf(self) -> bool {
        0 < self.total && self.processed() <= self.total
    }

    /// Begin with the number of videos that were found.
    pub fn start(found: Result<usize, String>) -> (res: Result<VideoRun, VideoOutcome>)
        ensures
            match (found, res) {
                (Ok(n), Ok(run)) => n > 0 && run == (VideoRun { total: n, success: 0, failed: 0 })
                    && run.wf(),
                (Ok(n), Err(outcome)) => n == 0 && outcome is NoVideos,
                (Err(e), Err(VideoOutcome::ScanFailed(text))) => text == e,
                (Err(_), _) => false,
            },
    {
        match found {
            Err(e) => Err(VideoOutcome::ScanFailed(e)),
            Ok(n) => {
                if n == 0 {
                    Err(VideoOutcome::NoVideos)
                } else {
                    Ok(VideoRun { total: n, success: 0, failed: 0 })
                }
            },
        }
    }

    pub fn next(&self, cancelled: bool) -> (res: VideoStep)
        requires
            self.wf(),
        ensures
            match res {
                VideoStep::Over(VideoOutcome::Finished { success, failed }) => self.processed()
                    == self.total && success == self.success && failed == self.failed,
                VideoStep::Over(VideoOutcome::Cancelled) => self.processed() < self.total
                    && cancelled,
                VideoStep::Over(_) => false,
                VideoStep::Compress(at) => self.processed() < self.total && !cancelled && at
                    == self.processed(),
            },
    {
        let at: usize = self.success + self.failed;
        if at == self.total {
            VideoStep::Over(
                VideoOutcome::Finished { success: self.success, failed: self.failed },
            )
        } else if cancelled {
            VideoStep::Over(VideoOutcome::Cancelled)
        } else {
            VideoStep::Compress(at)
        }
    }

    /// Count a video; gives the message that goes with the progress.
    pub fn report(&mut self, compressed: bool) -> (res: String)
        requires
            old(self).wf(),
            old(self).processed() < old(self).total,
        ensures
            final(self).wf(),
            *final(self) == if compressed {
                VideoRun { success: (old(self).success + 1) as usize, ..*old(self) }
            } else {
                VideoRun { failed: (old(self).failed + 1) as usize, ..*old(self) }
            },
            res@ == video_text(
                final(self).processed() as nat,
                final(self).total as nat,
                final(self).success as nat,
                final(self).failed as nat,
            ),
    {
        if compressed {
            self.success = self.success + 1;
        } else {
            self.failed = self.failed + 1;
        }
        video_message(self.success + self.failed, self.total, self.success, self.failed)
    }
}

/// The verdict on a video compression task.
pub fn video_verdict(outcome: &VideoOutcome) -> (res: TaskVerdict)
    ensures
        match *outcome {
            VideoOutcome::ScanFailed(e) => res matches TaskVerdict::Failure(t) && t@ == e@,
            VideoOutcome::NoVideos => res matches TaskVerdict::Failure(t) && t@
                == "No video files were found in the selected paths"@,
            VideoOutcome::Cancelled => res matches TaskVerdict::Failure(t) && t@
                == "Video compression task cancelled by user"@,
            VideoOutcome::Finished { success, failed } => if failed == 0 {
                res is Success
            } else {
                res matches TaskVerdict::Failure(t) && t@ == "Video compression completed with "@
                    + decimal(failed as nat) + " failures"@
            },
            VideoOutcome::TimedOut => res matches TaskVerdict::Failure(t) && t@
                == "Video compression task timed out"@,
        },
{
    match outcome {
        VideoOutcome::ScanFailed(e) => TaskVerdict::Failure(e.clone()),
        VideoOutcome::NoVideos => TaskVerdict::Failure(
            "No video files were found in the selected paths".to_owned(),
        ),
        VideoOutcome::Cancelled => TaskVerdict::Failure(
            "Video compression task cancelled by user".to_owned(),
        ),
        VideoOutcome::Finished { success: _, failed } => if *failed == 0 {
            TaskVerdict::Success
        } else {
            TaskVerdict::Failure(
                concat3(
                    "Video compression completed with ",
                    decimal_text(*failed as u64).as_str(),
                    " failures",
                ),
            )
        },
        VideoOutcome::TimedOut => TaskVerdict::Failure(
            "Video compression task timed out".to_owned(),
        ),
    }
}

/// A batch may be submitted: no maintenance is under way for the user, and there is
/// someone to keep track of the task.
pub fn admit_submission(under_maintenance: bool, has_task_handler: bool) -> (res: Result<
    (),
    VfsError,
>)
    ensures
        match res {
            Ok(()) => !under_maintenance && has_task_handler,
            Err(e) => if under_maintenance {
                e == VfsError::MaintenanceMode
            } else {
                !has_task_handler && e.is_internal("Task handler not configured"@)
            },
        },
{
    if under_maintenance {
        return Err(VfsError::MaintenanceMode);
    }
    if !has_task_handler {
        return Err(VfsError::internal("Task handler not configured"));
    }
    Ok(())
}

// ---------------------------------------------------------------- laws
/// A file goes into the directory under its own name.
pub proof fn files_keep_their_name(dir: Seq<char>, src_dir: Seq<char>, name: Seq<char>)
    requires
        dir.len() > 0,
        dir.last() != '/',
        !name.contains('/'),
    ensures
        base_destination_spec(src_dir + seq!['/'] + name, dir) == dir + seq!['/'] + name,
        base_destination_spec(src_dir + seq!['/'] + name, dir + seq!['/']) == dir + seq!['/'] + name,
        base_destination_spec(src_dir + seq!['/'] + name, seq!['/']) == seq!['/'] + name,
{
    reveal_strlit("/");
    assert("/"@ =~= seq!['/']);
    let s = src_dir + seq!['/'] + name;
    last_is_at(s, '/', src_dir.len() as int);
    assert(s.skip(src_dir.len() as int + 1) =~= name);
    let d = dir + seq!['/'];
    assert(d.drop_last() =~= dir);
    assert(trim_end_char(dir, '/') == dir);
    assert(trim_end_char(d, '/') == dir);
    let r: Seq<char> = seq!['/'];
    assert(r.drop_last() =~= Seq::<char>::empty());
    assert(trim_end_char(r, '/') == trim_end_char(r.drop_last(), '/'));
    assert(trim_end_char(r, '/') =~= Seq::<char>::empty());
    assert(base_destination_spec(s, r) =~= seq!['/'] + name);
}

/// The last `c` of a text stands where one stands and none stands behind it.
proof fn last_is_at(s: Seq<char>, c: char, k: int)
    requires
        0 <= k < s.len(),
        s[k] == c,
        forall|i: int| k < i < s.len() ==> s[i] != c,
    ensures
        last_pos(s, c) == k,
{
    crate::text::last_pos_bounds(s, c);
}

/// A number goes in brackets between the stem and the extension of the name; the
/// directory stays.
pub proof fn numbers_go_before_the_extension(
    dir: Seq<char>,
    stem: Seq<char>,
    ext: Seq<char>,
    n: nat,
)
    requires
        dir.len() > 0,
        stem.len() > 0,
        ext.len() > 0,
        !stem.contains('/'),
        !stem.contains('.'),
        !ext.contains('/'),
        !ext.contains('.'),
    ensures
        numbered(dir + seq!['/'] + stem + seq!['.'] + ext, n) == dir + seq!['/'] + stem + seq![
            ' ',
            '(',
        ] + decimal(n) + seq![')', '.'] + ext,
        numbered(dir + seq!['/'] + stem, n) == dir + seq!['/'] + stem + seq![' ', '('] + decimal(n)
            + seq![')'],
{
    reveal_strlit("/");
    reveal_strlit(" (");
    reveal_strlit(")");
    reveal_strlit(").");
    let full = stem + seq!['.'] + ext;
    let p = dir + seq!['/'] + stem + seq!['.'] + ext;
    let at = dir.len() as int;
    assert forall|i: int| at < i < p.len() implies p[i] != '/' by {
        let j = i - at - 1;
        if j < stem.len() {
            assert(p[i] == stem[j]);
        } else if j > stem.len() {
            assert(p[i] == ext[j - stem.len() - 1]);
        }
    }
    last_is_at(p, '/', at);
    assert(p.skip(at + 1) =~= full);
    assert(p.take(at) =~= dir);
    assert forall|i: int| stem.len() < i < full.len() implies full[i] != '.' by {
        assert(full[i] == ext[i - stem.len() - 1]);
    }
    last_is_at(full, '.', stem.len() as int);
    assert(full.take(stem.len() as int) =~= stem);
    assert(full.skip(stem.len() as int + 1) =~= ext);
    assert(numbered(p, n) =~= dir + seq!['/'] + stem + seq![' ', '('] + decimal(n) + seq![
        ')',
        '.',
    ] + ext);
    let q = dir + seq!['/'] + stem;
    assert forall|i: int| at < i < q.len() implies q[i] != '/' by {
        assert(q[i] == stem[i - at - 1]);
    }
    last_is_at(q, '/', at);
    assert(q.skip(at + 1) =~= stem);
    assert(q.take(at) =~= dir);
    crate::text::last_pos_bounds(stem, '.');
    if last_pos(stem, '.') >= 0 {
        assert(stem.contains('.'));
    }
    assert(numbered(q, n) =~= dir + seq!['/'] + stem + seq![' ', '('] + decimal(n) + seq![')']);
}

/// A destination that is free is taken as it is. One that is not gets the first number
/// that makes it free.
pub proof fn the_first_free_destination_is_taken(
    candidate: Seq<char>,
    reserved: Seq<Seq<char>>,
    n: nat,
)
    requires
        1 <= n <= 10000,
        reserved.contains(candidate),
        !reserved.contains(numbered(candidate, n)),
        forall|m: nat| 1 <= m < n ==> reserved.contains(#[trigger] numbered(candidate, m)),
    ensures
        destination(candidate, reserved) == numbered(candidate, n),
{
    first_free_from(candidate, reserved, 1, n);
}

proof fn first_free_from(candidate: Seq<char>, reserved: Seq<Seq<char>>, m: nat, n: nat)
    requires
        1 <= m <= n <= 10000,
        !reserved.contains(numbered(candidate, n)),
        forall|k: nat| m <= k < n ==> reserved.contains(#[trigger] numbered(candidate, k)),
    ensures
        first_free(candidate, reserved, m) == Some(n),
    decreases n - m,
{
    if m < n {
        assert(reserved.contains(numbered(candidate, m)));
        first_free_from(candidate, reserved, m + 1, n);
    }
}

/// A free destination is kept.
pub proof fn free_destinations_are_kept(candidate: Seq<char>, reserved: Seq<Seq<char>>)
    requires
        !reserved.contains(candidate),
    ensures
        destination(candidate, reserved) == candidate,
{
}

/// Every file that was tried counts once, as done or as failed; a cancelled one does
/// not count and ends the run; and the last file is always reported.
pub proof fn outcomes_are_counted(run: VfsBatchExecutor, cancelled: bool, outcome: ItemOutcome)
    requires
        run.wf(),
        run.processed() < run.total,
    ensures
        ({
            let after = run.after_outcome(cancelled, outcome);
            let reaction = run.reaction(cancelled, outcome);
            let tried = !cancelled && outcome != ItemOutcome::NotTried;
            &&& after.total == run.total
            &&& after.success - run.success == if tried && outcome == ItemOutcome::Done {
                1int
            } else {
                0
            }
            &&& after.failed - run.failed == if tried && outcome == ItemOutcome::Failed {
                1int
            } else {
                0
            }
            &&& reaction.stop == !tried
            &&& tried ==> reaction.log_success == Some(outcome == ItemOutcome::Done)
            &&& !tried ==> reaction.log_success is None && !reaction.report
            &&& tried && after.success + after.failed == after.total ==> reaction.report
            &&& tried && (after.success + after.failed) % 5 == 0 ==> reaction.report
        }),
{
}

/// A batch succeeds exactly where it came to its end in time and no file failed.
pub proof fn a_batch_succeeds_without_failures(run: VfsBatchExecutor, timed_out: bool, res: TaskVerdict)
    requires
        run.is_verdict(timed_out, res),
    ensures
        res is Success <==> !timed_out && run.failed == 0,
{
}

/// The sources of a compression are removed only where they were compressed and that
/// was asked for; the temporary directory whenever it may be there.
pub proof fn sources_are_removed_only_after_compression(
    outcome: CompressOutcome,
    temp_dir: Seq<char>,
    paths: Seq<Seq<char>>,
    delete_source: bool,
    path: Seq<char>,
)
    requires
        paths.contains(path),
        path != temp_dir,
    ensures
        cleaned_up(outcome, temp_dir, paths, delete_source).contains(path) <==> outcome
            == CompressOutcome::Compressed && delete_source,
        outcome is Compressed || outcome is NothingPrepared || outcome is CompressFailed
            ==> cleaned_up(outcome, temp_dir, paths, delete_source).contains(temp_dir),
{
    let all = cleaned_up(outcome, temp_dir, paths, delete_source);
    if outcome == CompressOutcome::Compressed && delete_source {
        let i = choose|i: int| 0 <= i < paths.len() && paths[i] == path;
        assert(all[i + 1] == path);
    } else if all.contains(path) {
        let i = choose|i: int| 0 <= i < all.len() && all[i] == path;
        assert(all[i] == temp_dir);
    }
    if all.len() > 0 {
        assert(all[0] == temp_dir);
    }
}

/// What is gathered for a path is that path, put into the temporary directory under its
/// own name.
pub proof fn sources_are_gathered_under_their_names(
    path: Seq<char>,
    temp_dir: Seq<char>,
    checked: bool,
)
    ensures
        match gather_one(path, temp_dir, checked) {
            Some((from, to)) => {
                &&& from == if checked {
                    normal_form(path)
                } else {
                    path
                }
                &&& checked ==> is_valid_path(path)
                &&& file_name_spec(from) is Some
                &&& to == temp_dir + seq!['/'] + file_name_spec(from)->0
            },
            None => (checked && !is_valid_path(path)) || file_name_spec(
                if checked {
                    normal_form(path)
                } else {
                    path
                },
            ) is None,
        },
{
    reveal_strlit("/");
    assert("/"@ =~= seq!['/']);
}

/// Every path of which something is gathered is gathered once, in the order of the
/// paths.
pub proof fn every_source_is_gathered(
    paths: Seq<Seq<char>>,
    temp_dir: Seq<char>,
    checked: bool,
    i: int,
)
    requires
        0 <= i < paths.len(),
    ensures
        ({
            let all = gather_all(paths, temp_dir, checked);
            &&& gather_one(paths[i], temp_dir, checked) matches Some(pair) ==> all.contains(
                (i, pair.0, pair.1),
            )
            &&& forall|a: int, b: int|
                0 <= a < b < all.len() ==> (#[trigger] all[a]).0 < (#[trigger] all[b]).0
            &&& forall|a: int|
                0 <= a < all.len() ==> 0 <= (#[trigger] all[a]).0 < paths.len() && gather_one(
                    paths[all[a].0],
                    temp_dir,
                    checked,
                ) == Some((all[a].1, all[a].2))
        }),
    decreases paths.len(),
{
    let rest = paths.drop_last();
    let head = gather_all(rest, temp_dir, checked);
    let all = gather_all(paths, temp_dir, checked);
    if rest.len() > 0 {
        let j = if i < rest.len() {
            i
        } else {
            0
        };
        every_source_is_gathered(rest, temp_dir, checked, j);
        assert forall|a: int| 0 <= a < head.len() implies 0 <= (#[trigger] head[a]).0 < rest.len()
            && gather_one(paths[head[a].0], temp_dir, checked) == Some((head[a].1, head[a].2)) by {
            assert(rest[head[a].0] == paths[head[a].0]);
        }
    }
    if i < rest.len() {
        if gather_one(paths[i], temp_dir, checked) is Some {
            let pair = gather_one(paths[i], temp_dir, checked)->0;
            assert(rest[i] == paths[i]);
            assert(head.contains((i, pair.0, pair.1)));
            let m = choose|m: int| 0 <= m < head.len() && head[m] == (i, pair.0, pair.1);
            assert(all[m] == (i, pair.0, pair.1));
        }
    } else if gather_one(paths[i], temp_dir, checked) is Some {
        assert(all.last() == all[all.len() - 1]);
        let pair = gather_one(paths[i], temp_dir, checked)->0;
        assert(all[all.len() - 1] == (i, pair.0, pair.1));
    }
}

/// A path that is taken is tried again with a number behind its stem, in the same
/// directory and with the same extension.
pub proof fn attempts_stay_in_the_directory(dir: Seq<char>, stem: Seq<char>, ext: Seq<char>, k: nat)
    requires
        k > 0,
        dir.len() > 1,
        dir.last() != '/',
        dir.last() != '.',
        stem.len() > 0,
        ext.len() > 0,
        !stem.contains('/'),
        !stem.contains('.'),
        !ext.contains('/'),
        !ext.contains('.'),
    ensures
        unique_attempt(dir + seq!['/'] + (stem + seq!['.'] + ext), k) == dir + seq!['/'] + stem
            + seq!['_'] + decimal(k) + seq!['.'] + ext,
        unique_attempt(dir + seq!['/'] + (stem + seq!['.'] + ext), 0) == dir + seq!['/'] + (stem
            + seq!['.'] + ext),
{
    reveal_strlit("/");
    reveal_strlit("_");
    reveal_strlit(".");
    reveal_strlit("..");
    let name = stem + seq!['.'] + ext;
    let path = dir + seq!['/'] + name;
    assert forall|i: int| 0 <= i < name.len() implies name[i] != '/' by {
        if i < stem.len() {
            assert(name[i] == stem[i]);
        } else if i > stem.len() {
            assert(name[i] == ext[i - stem.len() - 1]);
        }
    }
    assert(name.len() >= 3);
    crate::pathname::parent_of_child(dir, name);
    assert(name != "."@ && name != ".."@);
    assert forall|i: int| stem.len() < i < name.len() implies name[i] != '.' by {
        assert(name[i] == ext[i - stem.len() - 1]);
    }
    last_is_at(name, '.', stem.len() as int);
    assert(name.take(stem.len() as int) =~= stem);
    assert(name.skip(stem.len() as int + 1) =~= ext);
    assert(trim_end_char(dir, '/') == dir);
    assert(unique_attempt(path, k) =~= dir + seq!['/'] + stem + seq!['_'] + decimal(k) + seq!['.']
        + ext);
}

/// A decompression succeeds exactly where it was in time and nothing failed; that it was
/// too late is told before how much failed.
pub proof fn a_decompression_succeeds_without_failures(
    verdict: TaskVerdict,
    failed: nat,
    timed_out: bool,
)
    requires
        is_decompress_verdict(verdict, failed, timed_out),
    ensures
        verdict is Success <==> !timed_out && failed == 0,
        timed_out ==> verdict is Failure && verdict->Failure_0@
            == "Decompression task timed out after 24 hours"@,
        !timed_out && failed > 0 ==> verdict is Failure && verdict->Failure_0@
            == "Decompression completed with "@ + decimal(failed) + " failures"@,
{
}

/// Compressing starts once every file had its turn and one at least was copied.
pub proof fn compressing_starts_when_all_is_gathered(run: CompressRun, turn: nat, counted: nat)
    requires
        run.gathered_up_to(turn, counted),
    ensures
        turn < run.files().len() ==> run.stands_at() == CompressPhase::Gathering,
        turn >= run.files().len() && counted > 0 ==> run.stands_at() == CompressPhase::Compressing,
        turn >= run.files().len() && counted == 0 ==> run.ending() == Some(
            CompressOutcome::NothingPrepared,
        ),
{
}

} // verus!
