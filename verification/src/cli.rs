use vstd::prelude::*;

use crate::generator::{parse_preset, preset_named, Preset};
use crate::text::{chars_of, parse_u64};

verus! {

pub const DEFAULT_DRAM_CAPACITY: u64 = 1024 * 1024;

pub const DEFAULT_FLASH_CAPACITY: u64 = 10 * 1024 * 1024;

pub const DEFAULT_SEGMENT_SIZE: u64 = 1024 * 1024;

pub const DEFAULT_MIN_READS: u64 = 2;

pub const DEFAULT_MAX_UPDATES: u64 = 1;

pub const DEFAULT_MIN_AGE: u64 = 2;

pub const DEFAULT_REQUESTS: u64 = 10_000;

pub const DEFAULT_KEYS: u64 = 1_000;

pub open spec fn strings_view(s: Seq<String>) -> Seq<Seq<char>> {
    s.map_values(|a: String| a@)
}

/// Index of the first argument from `i` on that is not consumed yet and equals `flag`.
pub open spec fn find_flag(args: Seq<Seq<char>>, used: Seq<bool>, flag: Seq<char>, i: int) -> Option<
    int,
>
    decreases args.len() - i,
{
    if i < 0 || i >= args.len() {
        None
    } else if !used[i] && args[i] == flag {
        Some(i)
    } else {
        find_flag(args, used, flag, i + 1)
    }
}

pub open spec fn starts_with_dashes(s: Seq<char>) -> bool {
    s.len() >= 2 && s[0] == '-' && s[1] == '-'
}

/// Argument-parser state: which arguments are consumed, and the outcome so far.
pub type Taken<T> = (Seq<bool>, Result<T, Seq<char>>);

/// The value of the first unconsumed `flag`: it must be followed by an argument that
/// does not start with `--`; both are consumed then.
pub open spec fn take_option(args: Seq<Seq<char>>, used: Seq<bool>, flag: Seq<char>) -> Taken<
    Option<Seq<char>>,
> {
    match find_flag(args, used, flag, 0) {
        None => (used, Ok(None)),
        Some(i) => if i + 1 >= args.len() || starts_with_dashes(args[i + 1]) {
            (used, Err(flag + " requires a value"@))
        } else {
            (used.update(i, true).update(i + 1, true), Ok(Some(args[i + 1])))
        },
    }
}

pub open spec fn take_required(args: Seq<Seq<char>>, used: Seq<bool>, flag: Seq<char>) -> Taken<
    Seq<char>,
> {
    let t = take_option(args, used, flag);
    match t.1 {
        Err(e) => (t.0, Err(e)),
        Ok(None) => (t.0, Err("missing required option "@ + flag)),
        Ok(Some(v)) => (t.0, Ok(v)),
    }
}

pub open spec fn take_u64(args: Seq<Seq<char>>, used: Seq<bool>, flag: Seq<char>) -> Taken<
    Option<u64>,
> {
    let t = take_option(args, used, flag);
    match t.1 {
        Err(e) => (t.0, Err(e)),
        Ok(None) => (t.0, Ok(None)),
        Ok(Some(v)) => match parse_u64(v) {
            Some(n) => (t.0, Ok(Some(n))),
            None => (t.0, Err(flag + " must be an unsigned integer"@)),
        },
    }
}

/// The first argument that is not consumed.
pub open spec fn first_unused(used: Seq<bool>, i: int) -> Option<int>
    decreases used.len() - i,
{
    if i < 0 || i >= used.len() {
        None
    } else if !used[i] {
        Some(i)
    } else {
        first_unused(used, i + 1)
    }
}

pub open spec fn leftover_error(args: Seq<Seq<char>>, used: Seq<bool>) -> Option<Seq<char>> {
    match first_unused(used, 0) {
        Some(i) => Some("unexpected argument: "@ + args[i]),
        None => None,
    }
}

/// Reads `--flag value` options out of a command line, each argument at most once.
pub struct ArgParser<'a> {
    args: &'a [String],
    used: Vec<bool>,
}

impl<'a> ArgParser<'a> {
    pub closed spec fn args(&self) -> Seq<Seq<char>> {
        strings_view(self.args@)
    }

    pub closed spec fn used(&self) -> Seq<bool> {
        self.used@
    }

    pub open spec fn wf(&self) -> bool {
        self.used().len() == self.args().len()
    }

    pub fn new(args: &'a [String]) -> (p: Self)
        ensures
            p.wf(),
            p.args() == strings_view(args@),
            p.used() == Seq::new(args@.len(), |_i: int| false),
    {
        let mut used: Vec<bool> = Vec::new();
        let mut i: usize = 0;
        while i < args.len()
            invariant
                i <= args@.len(),
                used@ == Seq::new(i as nat, |_i: int| false),
            decreases args@.len() - i,
        {
            used.push(false);
            i += 1;
            assert(used@ =~= Seq::new(i as nat, |_i: int| false));
        }
        Self { args, used }
    }

    fn starts_with_dashes(arg: &String) -> (b: bool)
        ensures
            b == starts_with_dashes(arg@),
    {
        let cs = chars_of(arg.as_str());
        cs.len() >= 2 && cs[0] == '-' && cs[1] == '-'
    }

    pub fn optional(&mut self, flag: &str) -> (r: Result<Option<String>, String>)
        requires
            old(self).wf(),
        ensures
            final(self).wf(),
            final(self).args() == old(self).args(),
            final(self).used() == take_option(old(self).args(), old(self).used(), flag@).0,
            r matches Ok(v) ==> take_option(old(self).args(), old(self).used(), flag@).1 == Ok::<
                Option<Seq<char>>,
                Seq<char>,
            >(
                match v {
                    Some(s) => Some(s@),
                    None => None,
                },
            ),
            r matches Err(e) ==> take_option(old(self).args(), old(self).used(), flag@).1 == Err::<
                Option<Seq<char>>,
                Seq<char>,
            >(e@),
    {
        let ghost a = self.args();
        let flag_string = flag.to_owned();
        let mut index: usize = 0;
        while index < self.args.len()
            invariant
                self.wf(),
                self.args() == a,
                self.used() == old(self).used(),
                self.args == old(self).args,
                flag_string@ == flag@,
                index <= a.len(),
                find_flag(a, self.used(), flag@, 0) == find_flag(a, self.used(), flag@, index as int),
            decreases a.len() - index,
        {
            assert(self.args@[index as int]@ == a[index as int]);
            if self.used[index] || !(self.args[index] == flag_string) {
                index += 1;
                continue;
            }
            let value_index = index + 1;
            if value_index >= self.args.len() || Self::starts_with_dashes(&self.args[value_index]) {
                let mut msg = flag.to_owned();
                msg.append(" requires a value");
                return Err(msg);
            }
            self.used.set(index, true);
            self.used.set(value_index, true);
            return Ok(Some(self.args[value_index].clone()));
        }
        Ok(None)
    }

    pub fn required(&mut self, flag: &str) -> (r: Result<String, String>)
        requires
            old(self).wf(),
        ensures
            final(self).wf(),
            final(self).args() == old(self).args(),
            final(self).used() == take_required(old(self).args(), old(self).used(), flag@).0,
            r matches Ok(v) ==> take_required(old(self).args(), old(self).used(), flag@).1 == Ok::<
                Seq<char>,
                Seq<char>,
            >(v@),
            r matches Err(e) ==> take_required(old(self).args(), old(self).used(), flag@).1
                == Err::<Seq<char>, Seq<char>>(e@),
    {
        match self.optional(flag) {
            Ok(Some(v)) => Ok(v),
            Ok(None) => {
                let mut msg = "missing required option ".to_owned();
                msg.append(flag);
                Err(msg)
            },
            Err(e) => Err(e),
        }
    }

    pub fn optional_u64(&mut self, flag: &str) -> (r: Result<Option<u64>, String>)
        requires
            old(self).wf(),
        ensures
            final(self).wf(),
            final(self).args() == old(self).args(),
            final(self).used() == take_u64(old(self).args(), old(self).used(), flag@).0,
            r matches Ok(v) ==> take_u64(old(self).args(), old(self).used(), flag@).1 == Ok::<
                Option<u64>,
                Seq<char>,
            >(v),
            r matches Err(e) ==> take_u64(old(self).args(), old(self).used(), flag@).1 == Err::<
                Option<u64>,
                Seq<char>,
            >(e@),
    {
        match self.optional(flag) {
            Ok(Some(v)) => {
                let cs = chars_of(v.as_str());
                assert(cs@.subrange(0, cs@.len() as int) =~= v@);
                match crate::text::parse_u64_in(&cs, 0, cs.len()) {
                    Some(n) => Ok(Some(n)),
                    None => {
                        let mut msg = flag.to_owned();
                        msg.append(" must be an unsigned integer");
                        Err(msg)
                    },
                }
            },
            Ok(None) => Ok(None),
            Err(e) => Err(e),
        }
    }

    /// Fails on the first argument that no option consumed.
    pub fn finish(&self) -> (r: Result<(), String>)
        requires
            self.wf(),
        ensures
            r is Ok <==> leftover_error(self.args(), self.used()) is None,
            r matches Err(e) ==> leftover_error(self.args(), self.used()) == Some(e@),
    {
        let mut index: usize = 0;
        while index < self.args.len()
            invariant
                self.wf(),
                index <= self.args@.len(),
                first_unused(self.used(), 0) == first_unused(self.used(), index as int),
            decreases self.args@.len() - index,
        {
            if !self.used[index] {
                let mut msg = "unexpected argument: ".to_owned();
                msg.append(self.args[index].as_str());
                return Err(msg);
            }
            index += 1;
        }
        Ok(())
    }
}

/// Appends the value of the `u64` option `flag` to the values read so far.
pub open spec fn then_u64(
    args: Seq<Seq<char>>,
    prev: Taken<Seq<Option<u64>>>,
    flag: Seq<char>,
) -> Taken<Seq<Option<u64>>> {
    match prev.1 {
        Err(e) => prev,
        Ok(values) => {
            let t = take_u64(args, prev.0, flag);
            match t.1 {
                Err(e) => (t.0, Err(e)),
                Ok(v) => (t.0, Ok(values.push(v))),
            }
        },
    }
}

pub open spec fn or_default(v: Option<u64>, default: u64) -> u64 {
    match v {
        Some(n) => n,
        None => default,
    }
}

pub open spec fn no_arguments_used(args: Seq<Seq<char>>) -> Seq<bool> {
    Seq::new(args.len(), |_i: int| false)
}

/// How the `simulate` command prints its report.
#[derive(Debug, Clone, Copy, PartialEq, Eq, Structural)]
pub enum OutputFormat {
    Text,
    Json,
}

/// The report format an `--output-format` value selects: text by default, or `json`.
pub open spec fn output_format_named(v: Option<Seq<char>>) -> Result<OutputFormat, Seq<char>> {
    match v {
        None => Ok(OutputFormat::Text),
        Some(name) => if name == "text"@ {
            Ok(OutputFormat::Text)
        } else if name == "json"@ {
            Ok(OutputFormat::Json)
        } else {
            Err("--output-format must be text or json"@)
        },
    }
}

/// The report format, and the raw texts of the learned policy's threshold and learning
/// rate.
pub type Extras = (OutputFormat, Option<Seq<char>>, Option<Seq<char>>);

/// Reads `--output-format`, then `--ml-threshold` and `--ml-learning-rate` as text.
pub open spec fn take_extras(args: Seq<Seq<char>>, used: Seq<bool>) -> Taken<Extras> {
    let f = take_option(args, used, "--output-format"@);
    match f.1 {
        Err(e) => (f.0, Err(e)),
        Ok(fv) => match output_format_named(fv) {
            Err(e) => (f.0, Err(e)),
            Ok(format) => {
                let t = take_option(args, f.0, "--ml-threshold"@);
                match t.1 {
                    Err(e) => (t.0, Err(e)),
                    Ok(threshold) => {
                        let r = take_option(args, t.0, "--ml-learning-rate"@);
                        match r.1 {
                            Err(e) => (r.0, Err(e)),
                            Ok(rate) => (r.0, Ok((format, threshold, rate))),
                        }
                    },
                }
            },
        },
    }
}

pub open spec fn option_view(v: Option<String>) -> Option<Seq<char>> {
    match v {
        Some(s) => Some(s@),
        None => None,
    }
}

/// Options of the `simulate` command.
pub struct SimulateOptions {
    pub policy: String,
    pub trace: String,
    pub dram_capacity: u64,
    pub flash_capacity: u64,
    pub segment_size: u64,
    pub min_reads: u64,
    pub max_updates: u64,
    pub min_age: u64,
    pub output_format: OutputFormat,
    pub ml_threshold: Option<String>,
    pub ml_learning_rate: Option<String>,
}

pub struct SimulateView {
    pub policy: Seq<char>,
    pub trace: Seq<char>,
    pub dram_capacity: u64,
    pub flash_capacity: u64,
    pub segment_size: u64,
    pub min_reads: u64,
    pub max_updates: u64,
    pub min_age: u64,
    pub output_format: OutputFormat,
    pub ml_threshold: Option<Seq<char>>,
    pub ml_learning_rate: Option<Seq<char>>,
}

impl View for SimulateOptions {
    type V = SimulateView;

    open spec fn view(&self) -> SimulateView {
        SimulateView {
            policy: self.policy@,
            trace: self.trace@,
            dram_capacity: self.dram_capacity,
            flash_capacity: self.flash_capacity,
            segment_size: self.segment_size,
            min_reads: self.min_reads,
            max_updates: self.max_updates,
            min_age: self.min_age,
            output_format: self.output_format,
            ml_threshold: option_view(self.ml_threshold),
            ml_learning_rate: option_view(self.ml_learning_rate),
        }
    }
}

/// `--policy` and `--trace` are required; the capacities, the segment size and the
/// admission thresholds are optional with their defaults; no other argument may be left,
/// and the segment size must not be zero.
pub open spec fn simulate_options(args: Seq<Seq<char>>) -> Result<SimulateView, Seq<char>> {
    let p = take_required(args, no_arguments_used(args), "--policy"@);
    match p.1 {
        Err(e) => Err(e),
        Ok(policy) => {
            let t = take_required(args, p.0, "--trace"@);
            match t.1 {
                Err(e) => Err(e),
                Ok(trace) => {
                    let o = then_u64(
                        args,
                        then_u64(
                            args,
                            then_u64(
                                args,
                                then_u64(
                                    args,
                                    then_u64(
                                        args,
                                        then_u64(args, (t.0, Ok(Seq::empty())), "--dram-capacity"@),
                                        "--flash-capacity"@,
                                    ),
                                    "--segment-size"@,
                                ),
                                "--min-reads"@,
                            ),
                            "--max-updates"@,
                        ),
                        "--min-age"@,
                    );
                    let x = take_extras(args, o.0);
                    match (o.1, x.1) {
                        (Err(e), _) => Err(e),
                        (Ok(_), Err(e)) => Err(e),
                        (Ok(v), Ok(extras)) => match leftover_error(args, x.0) {
                            Some(e) => Err(e),
                            None => if or_default(v[2], DEFAULT_SEGMENT_SIZE) == 0 {
                                Err("--segment-size must be greater than zero"@)
                            } else {
                                Ok(
                                    SimulateView {
                                        policy,
                                        trace,
                                        dram_capacity: or_default(v[0], DEFAULT_DRAM_CAPACITY),
                                        flash_capacity: or_default(v[1], DEFAULT_FLASH_CAPACITY),
                                        segment_size: or_default(v[2], DEFAULT_SEGMENT_SIZE),
                                        min_reads: or_default(v[3], DEFAULT_MIN_READS),
                                        max_updates: or_default(v[4], DEFAULT_MAX_UPDATES),
                                        min_age: or_default(v[5], DEFAULT_MIN_AGE),
                                        output_format: extras.0,
                                        ml_threshold: extras.1,
                                        ml_learning_rate: extras.2,
                                    },
                                )
                            },
                        },
                    }
                },
            }
        },
    }
}

/// `args[i]` is the first occurrence of `flag`.
pub open spec fn first_occurrence(args: Seq<Seq<char>>, flag: Seq<char>, i: int) -> bool {
    &&& 0 <= i < args.len()
    &&& args[i] == flag
    &&& forall|j: int| 0 <= j < i ==> args[j] != flag
}

/// `value` is the number written after the first `flag`, or `default` when `flag` does
/// not occur.
pub open spec fn numeric_option(args: Seq<Seq<char>>, flag: Seq<char>, default: u64, value: u64) -> bool {
    &&& forall|i: int|
        #![trigger first_occurrence(args, flag, i)]
        first_occurrence(args, flag, i) ==> i + 1 < args.len() && parse_u64(args[i + 1])
            == Some(value)
    &&& (forall|j: int| 0 <= j < args.len() ==> args[j] != flag) ==> value == default
}

/// Every consumed argument is one of `flags` or a value that does not start with `--`.
pub open spec fn consumed_within(args: Seq<Seq<char>>, used: Seq<bool>, flags: Set<Seq<char>>) -> bool {
    &&& used.len() == args.len()
    &&& forall|j: int|
        0 <= j < args.len() && #[trigger] used[j] ==> flags.contains(args[j])
            || !starts_with_dashes(args[j])
}

proof fn lemma_find_flag_found(args: Seq<Seq<char>>, used: Seq<bool>, flag: Seq<char>, k: int)
    requires
        used.len() == args.len(),
    ensures
        find_flag(args, used, flag, k) matches Some(i) ==> k <= i < args.len() && !used[i]
            && args[i] == flag,
    decreases args.len() - k,
{
    if 0 <= k < args.len() {
        lemma_find_flag_found(args, used, flag, k + 1);
    }
}

proof fn lemma_find_flag_first(
    args: Seq<Seq<char>>,
    used: Seq<bool>,
    flags: Set<Seq<char>>,
    flag: Seq<char>,
    i: int,
    k: int,
)
    requires
        consumed_within(args, used, flags),
        !flags.contains(flag),
        starts_with_dashes(flag),
        first_occurrence(args, flag, i),
        0 <= k <= i,
    ensures
        find_flag(args, used, flag, k) == Some(i),
    decreases i - k,
{
    if k < i {
        lemma_find_flag_first(args, used, flags, flag, i, k + 1);
    } else {
        assert(!used[i]);
    }
}

proof fn lemma_find_flag_absent(args: Seq<Seq<char>>, used: Seq<bool>, flag: Seq<char>, k: int)
    requires
        forall|j: int| 0 <= j < args.len() ==> args[j] != flag,
    ensures
        find_flag(args, used, flag, k) is None,
    decreases args.len() - k,
{
    if 0 <= k < args.len() {
        lemma_find_flag_absent(args, used, flag, k + 1);
    }
}

proof fn lemma_take_option_consumes(
    args: Seq<Seq<char>>,
    used: Seq<bool>,
    flags: Set<Seq<char>>,
    flag: Seq<char>,
)
    requires
        consumed_within(args, used, flags),
    ensures
        consumed_within(args, take_option(args, used, flag).0, flags.insert(flag)),
{
    lemma_find_flag_found(args, used, flag, 0);
}

proof fn lemma_take_u64_reads_first(
    args: Seq<Seq<char>>,
    used: Seq<bool>,
    flags: Set<Seq<char>>,
    flag: Seq<char>,
)
    requires
        consumed_within(args, used, flags),
        !flags.contains(flag),
        starts_with_dashes(flag),
        take_u64(args, used, flag).1 is Ok,
    ensures
        consumed_within(args, take_u64(args, used, flag).0, flags.insert(flag)),
        forall|i: int|
            #![trigger first_occurrence(args, flag, i)]
            first_occurrence(args, flag, i) ==> i + 1 < args.len() && parse_u64(args[i + 1])
                is Some && take_u64(args, used, flag).1 == Ok::<Option<u64>, Seq<char>>(
                parse_u64(args[i + 1]),
            ),
        (forall|j: int| 0 <= j < args.len() ==> args[j] != flag) ==> take_u64(args, used, flag).1
            == Ok::<Option<u64>, Seq<char>>(None),
{
    lemma_take_option_consumes(args, used, flags, flag);
    assert forall|i: int|
        #![trigger first_occurrence(args, flag, i)]
        first_occurrence(args, flag, i) implies i + 1 < args.len() && parse_u64(args[i + 1])
            is Some && take_u64(args, used, flag).1 == Ok::<Option<u64>, Seq<char>>(
            parse_u64(args[i + 1]),
        ) by {
        lemma_find_flag_first(args, used, flags, flag, i, 0);
    }
    if forall|j: int| 0 <= j < args.len() ==> args[j] != flag {
        lemma_find_flag_absent(args, used, flag, 0);
    }
}

/// `value` is the argument written after the first `flag`, which occurs.
pub open spec fn text_option(args: Seq<Seq<char>>, flag: Seq<char>, value: Seq<char>) -> bool {
    &&& exists|i: int| #[trigger] first_occurrence(args, flag, i)
    &&& forall|i: int|
        #![trigger first_occurrence(args, flag, i)]
        first_occurrence(args, flag, i) ==> i + 1 < args.len() && args[i + 1] == value
}

proof fn lemma_take_required_reads_first(
    args: Seq<Seq<char>>,
    used: Seq<bool>,
    flags: Set<Seq<char>>,
    flag: Seq<char>,
)
    requires
        consumed_within(args, used, flags),
        !flags.contains(flag),
        starts_with_dashes(flag),
        take_required(args, used, flag).1 is Ok,
    ensures
        consumed_within(args, take_required(args, used, flag).0, flags.insert(flag)),
        text_option(args, flag, take_required(args, used, flag).1->Ok_0),
{
    lemma_take_option_consumes(args, used, flags, flag);
    lemma_find_flag_found(args, used, flag, 0);
    lemma_find_flag_is_first(args, used, flags, flag, 0);
    let i = find_flag(args, used, flag, 0)->Some_0;
    assert(first_occurrence(args, flag, i));
    assert forall|i2: int|
        #![trigger first_occurrence(args, flag, i2)]
        first_occurrence(args, flag, i2) implies i2 + 1 < args.len() && args[i2 + 1]
            == take_required(args, used, flag).1->Ok_0 by {
        lemma_find_flag_first(args, used, flags, flag, i2, 0);
    }
}

proof fn lemma_find_flag_is_first(
    args: Seq<Seq<char>>,
    used: Seq<bool>,
    flags: Set<Seq<char>>,
    flag: Seq<char>,
    k: int,
)
    requires
        consumed_within(args, used, flags),
        !flags.contains(flag),
        starts_with_dashes(flag),
        0 <= k,
    ensures
        find_flag(args, used, flag, k) matches Some(i) ==> forall|j: int|
            k <= j < i ==> args[j] != flag,
    decreases args.len() - k,
{
    if k < args.len() {
        lemma_find_flag_is_first(args, used, flags, flag, k + 1);
    }
}

/// Each option of `simulate` takes the argument written after the first occurrence of
/// its own flag, wherever the flags stand; a numeric option absent takes its default.
pub proof fn lemma_simulate_numeric_options(args: Seq<Seq<char>>)
    requires
        simulate_options(args) is Ok,
    ensures
        numeric_option(
            args,
            "--dram-capacity"@,
            DEFAULT_DRAM_CAPACITY,
            simulate_options(args)->Ok_0.dram_capacity,
        ),
        numeric_option(
            args,
            "--flash-capacity"@,
            DEFAULT_FLASH_CAPACITY,
            simulate_options(args)->Ok_0.flash_capacity,
        ),
        numeric_option(
            args,
            "--segment-size"@,
            DEFAULT_SEGMENT_SIZE,
            simulate_options(args)->Ok_0.segment_size,
        ),
        numeric_option(
            args,
            "--min-reads"@,
            DEFAULT_MIN_READS,
            simulate_options(args)->Ok_0.min_reads,
        ),
        numeric_option(
            args,
            "--max-updates"@,
            DEFAULT_MAX_UPDATES,
            simulate_options(args)->Ok_0.max_updates,
        ),
        numeric_option(args, "--min-age"@, DEFAULT_MIN_AGE, simulate_options(args)->Ok_0.min_age),
        text_option(args, "--policy"@, simulate_options(args)->Ok_0.policy),
        text_option(args, "--trace"@, simulate_options(args)->Ok_0.trace),
{
    reveal_strlit("--policy");
    reveal_strlit("--trace");
    reveal_strlit("--dram-capacity");
    reveal_strlit("--flash-capacity");
    reveal_strlit("--segment-size");
    reveal_strlit("--min-reads");
    reveal_strlit("--max-updates");
    reveal_strlit("--min-age");
    let u0 = no_arguments_used(args);
    let f0 = Set::<Seq<char>>::empty();
    assert(consumed_within(args, u0, f0));
    let p = take_required(args, u0, "--policy"@);
    lemma_take_required_reads_first(args, u0, f0, "--policy"@);
    let f1 = f0.insert("--policy"@);
    let t = take_required(args, p.0, "--trace"@);
    lemma_take_required_reads_first(args, p.0, f1, "--trace"@);
    let f2 = f1.insert("--trace"@);
    let s0: Taken<Seq<Option<u64>>> = (t.0, Ok(Seq::empty()));
    let s1 = then_u64(args, s0, "--dram-capacity"@);
    let s2 = then_u64(args, s1, "--flash-capacity"@);
    let s3 = then_u64(args, s2, "--segment-size"@);
    let s4 = then_u64(args, s3, "--min-reads"@);
    let s5 = then_u64(args, s4, "--max-updates"@);
    let s6 = then_u64(args, s5, "--min-age"@);
    assert(s6.1 is Ok);
    assert(s5.1 is Ok);
    assert(s4.1 is Ok);
    assert(s3.1 is Ok);
    assert(s2.1 is Ok);
    assert(s1.1 is Ok);
    lemma_take_u64_reads_first(args, s0.0, f2, "--dram-capacity"@);
    let f3 = f2.insert("--dram-capacity"@);
    lemma_take_u64_reads_first(args, s1.0, f3, "--flash-capacity"@);
    let f4 = f3.insert("--flash-capacity"@);
    lemma_take_u64_reads_first(args, s2.0, f4, "--segment-size"@);
    let f5 = f4.insert("--segment-size"@);
    lemma_take_u64_reads_first(args, s3.0, f5, "--min-reads"@);
    let f6 = f5.insert("--min-reads"@);
    lemma_take_u64_reads_first(args, s4.0, f6, "--max-updates"@);
    let f7 = f6.insert("--max-updates"@);
    lemma_take_u64_reads_first(args, s5.0, f7, "--min-age"@);
}

impl SimulateOptions {
    pub fn parse(args: &[String]) -> (r: Result<SimulateOptions, String>)
        ensures
            r matches Ok(o) ==> simulate_options(strings_view(args@)) == Ok::<
                SimulateView,
                Seq<char>,
            >(o@),
            r matches Err(e) ==> simulate_options(strings_view(args@)) == Err::<
                SimulateView,
                Seq<char>,
            >(e@),
    {
        let ghost a = strings_view(args@);
        let mut parser = ArgParser::new(args);
        assert(parser.used() =~= no_arguments_used(a));
        let policy = match parser.required("--policy") {
            Ok(v) => v,
            Err(e) => {
                return Err(e);
            },
        };
        let trace = match parser.required("--trace") {
            Ok(v) => v,
            Err(e) => {
                return Err(e);
            },
        };
        let ghost mut acc: Taken<Seq<Option<u64>>> = (parser.used(), Ok(Seq::empty()));
        let dram_capacity = match parser.optional_u64("--dram-capacity") {
            Ok(v) => v,
            Err(e) => {
                return Err(e);
            },
        };
        proof {
            acc = then_u64(a, acc, "--dram-capacity"@);
        }
        let flash_capacity = match parser.optional_u64("--flash-capacity") {
            Ok(v) => v,
            Err(e) => {
                return Err(e);
            },
        };
        proof {
            acc = then_u64(a, acc, "--flash-capacity"@);
        }
        let segment_size = match parser.optional_u64("--segment-size") {
            Ok(v) => v,
            Err(e) => {
                return Err(e);
            },
        };
        proof {
            acc = then_u64(a, acc, "--segment-size"@);
        }
        let min_reads = match parser.optional_u64("--min-reads") {
            Ok(v) => v,
            Err(e) => {
                return Err(e);
            },
        };
        proof {
            acc = then_u64(a, acc, "--min-reads"@);
        }
        let max_updates = match parser.optional_u64("--max-updates") {
            Ok(v) => v,
            Err(e) => {
                return Err(e);
            },
        };
        proof {
            acc = then_u64(a, acc, "--max-updates"@);
        }
        let min_age = match parser.optional_u64("--min-age") {
            Ok(v) => v,
            Err(e) => {
                return Err(e);
            },
        };
        proof {
            acc = then_u64(a, acc, "--min-age"@);
            let expected = seq![
                dram_capacity,
                flash_capacity,
                segment_size,
                min_reads,
                max_updates,
                min_age,
            ];
            assert(acc.1 is Ok);
            assert(acc.1->Ok_0 =~= expected);
        }
        let (output_format, ml_threshold, ml_learning_rate) = match Self::parse_extras(
            &mut parser,
        ) {
            Ok(x) => x,
            Err(e) => {
                return Err(e);
            },
        };
        match parser.finish() {
            Ok(()) => {},
            Err(e) => {
                return Err(e);
            },
        }
        let segment_size = segment_size.unwrap_or(DEFAULT_SEGMENT_SIZE);
        if segment_size == 0 {
            return Err("--segment-size must be greater than zero".to_owned());
        }
        Ok(SimulateOptions {
            policy,
            trace,
            dram_capacity: dram_capacity.unwrap_or(DEFAULT_DRAM_CAPACITY),
            flash_capacity: flash_capacity.unwrap_or(DEFAULT_FLASH_CAPACITY),
            segment_size,
            min_reads: min_reads.unwrap_or(DEFAULT_MIN_READS),
            max_updates: max_updates.unwrap_or(DEFAULT_MAX_UPDATES),
            min_age: min_age.unwrap_or(DEFAULT_MIN_AGE),
            output_format,
            ml_threshold,
            ml_learning_rate,
        })
    }

    fn parse_extras(parser: &mut ArgParser) -> (r: Result<
        (OutputFormat, Option<String>, Option<String>),
        String,
    >)
        requires
            old(parser).wf(),
        ensures
            final(parser).wf(),
            final(parser).args() == old(parser).args(),
            final(parser).used() == take_extras(old(parser).args(), old(parser).used()).0,
            r matches Ok(x) ==> take_extras(old(parser).args(), old(parser).used()).1 == Ok::<
                Extras,
                Seq<char>,
            >((x.0, option_view(x.1), option_view(x.2))),
            r matches Err(e) ==> take_extras(old(parser).args(), old(parser).used()).1 == Err::<
                Extras,
                Seq<char>,
            >(e@),
    {
        let format = match parser.optional("--output-format") {
            Ok(None) => OutputFormat::Text,
            Ok(Some(name)) => {
                if name == "text".to_owned() {
                    OutputFormat::Text
                } else if name == "json".to_owned() {
                    OutputFormat::Json
                } else {
                    return Err("--output-format must be text or json".to_owned());
                }
            },
            Err(e) => {
                return Err(e);
            },
        };
        let threshold = match parser.optional("--ml-threshold") {
            Ok(v) => v,
            Err(e) => {
                return Err(e);
            },
        };
        let rate = match parser.optional("--ml-learning-rate") {
            Ok(v) => v,
            Err(e) => {
                return Err(e);
            },
        };
        Ok((format, threshold, rate))
    }
}

/// Options of the `generate-trace` command.
pub struct GenerateOptions {
    pub output: String,
    pub requests: u64,
    pub keys: u64,
    pub preset: Preset,
}

pub struct GenerateView {
    pub output: Seq<char>,
    pub requests: u64,
    pub keys: u64,
    pub preset: Preset,
}

impl View for GenerateOptions {
    type V = GenerateView;

    open spec fn view(&self) -> GenerateView {
        GenerateView {
            output: self.output@,
            requests: self.requests,
            keys: self.keys,
            preset: self.preset,
        }
    }
}

/// `--output` is required, `--requests`, `--keys` and `--preset` are optional with
/// their defaults, and no other argument may be left.
pub open spec fn generate_options(args: Seq<Seq<char>>) -> Result<GenerateView, Seq<char>> {
    let o = take_required(args, no_arguments_used(args), "--output"@);
    match o.1 {
        Err(e) => Err(e),
        Ok(output) => {
            let v = then_u64(args, then_u64(args, (o.0, Ok(Seq::empty())), "--requests"@), "--keys"@);
            let p = take_option(args, v.0, "--preset"@);
            match (v.1, p.1) {
                (Err(e), _) => Err(e),
                (Ok(_), Err(e)) => Err(e),
                (Ok(n), Ok(name)) => match preset_named(name) {
                    Err(e) => Err(e),
                    Ok(preset) => match leftover_error(args, p.0) {
                        Some(e) => Err(e),
                        None => Ok(
                            GenerateView {
                                output,
                                requests: or_default(n[0], DEFAULT_REQUESTS),
                                keys: or_default(n[1], DEFAULT_KEYS),
                                preset,
                            },
                        ),
                    },
                },
            }
        },
    }
}

/// Each option of `generate-trace` takes the argument written after the first
/// occurrence of its own flag, wherever the flags stand; a numeric option absent takes
/// its default.
pub proof fn lemma_generate_options_from_flags(args: Seq<Seq<char>>)
    requires
        generate_options(args) is Ok,
    ensures
        text_option(args, "--output"@, generate_options(args)->Ok_0.output),
        numeric_option(args, "--requests"@, DEFAULT_REQUESTS, generate_options(args)->Ok_0.requests),
        numeric_option(args, "--keys"@, DEFAULT_KEYS, generate_options(args)->Ok_0.keys),
{
    reveal_strlit("--output");
    reveal_strlit("--requests");
    reveal_strlit("--keys");
    let u0 = no_arguments_used(args);
    let f0 = Set::<Seq<char>>::empty();
    assert(consumed_within(args, u0, f0));
    let o = take_required(args, u0, "--output"@);
    lemma_take_required_reads_first(args, u0, f0, "--output"@);
    let f1 = f0.insert("--output"@);
    let s0: Taken<Seq<Option<u64>>> = (o.0, Ok(Seq::empty()));
    let s1 = then_u64(args, s0, "--requests"@);
    let s2 = then_u64(args, s1, "--keys"@);
    assert(s2.1 is Ok);
    assert(s1.1 is Ok);
    lemma_take_u64_reads_first(args, s0.0, f1, "--requests"@);
    let f2 = f1.insert("--requests"@);
    lemma_take_u64_reads_first(args, s1.0, f2, "--keys"@);
}

impl GenerateOptions {
    pub fn parse(args: &[String]) -> (r: Result<GenerateOptions, String>)
        ensures
            r matches Ok(o) ==> generate_options(strings_view(args@)) == Ok::<
                GenerateView,
                Seq<char>,
            >(o@),
            r matches Err(e) ==> generate_options(strings_view(args@)) == Err::<
                GenerateView,
                Seq<char>,
            >(e@),
    {
        let ghost a = strings_view(args@);
        let mut parser = ArgParser::new(args);
        assert(parser.used() =~= no_arguments_used(a));
        let output = match parser.required("--output") {
            Ok(v) => v,
            Err(e) => {
                return Err(e);
            },
        };
        let ghost mut acc: Taken<Seq<Option<u64>>> = (parser.used(), Ok(Seq::empty()));
        let requests = match parser.optional_u64("--requests") {
            Ok(v) => v,
            Err(e) => {
                return Err(e);
            },
        };
        proof {
            acc = then_u64(a, acc, "--requests"@);
        }
        let keys = match parser.optional_u64("--keys") {
            Ok(v) => v,
            Err(e) => {
                return Err(e);
            },
        };
        proof {
            acc = then_u64(a, acc, "--keys"@);
            assert(acc.1 is Ok);
            assert(acc.1->Ok_0 =~= seq![requests, keys]);
        }
        let preset = match parser.optional("--preset") {
            Ok(None) => Preset::Mixed,
            Ok(Some(name)) => match parse_preset(name.as_str()) {
                Ok(p) => p,
                Err(e) => {
                    return Err(e);
                },
            },
            Err(e) => {
                return Err(e);
            },
        };
        match parser.finish() {
            Ok(()) => {},
            Err(e) => {
                return Err(e);
            },
        }
        Ok(GenerateOptions {
            output,
            requests: requests.unwrap_or(DEFAULT_REQUESTS),
            keys: keys.unwrap_or(DEFAULT_KEYS),
            preset,
        })
    }
}

/// The subcommand of the program.
#[derive(Debug, Clone, Copy, PartialEq, Eq, Structural)]
pub enum Command {
    Simulate,
    GenerateTrace,
    Help,
}

/// The command named by the first argument after the program name.
pub open spec fn command_for(args: Seq<Seq<char>>) -> Result<Command, Seq<char>> {
    if args.len() < 2 {
        Err("missing command"@)
    } else if args[1] == "simulate"@ {
        Ok(Command::Simulate)
    } else if args[1] == "generate-trace"@ {
        Ok(Command::GenerateTrace)
    } else if args[1] == "--help"@ || args[1] == "-h"@ || args[1] == "help"@ {
        Ok(Command::Help)
    } else {
        Err("unknown command: "@ + args[1])
    }
}

pub fn parse_command(args: &[String]) -> (r: Result<Command, String>)
    ensures
        r matches Ok(c) ==> command_for(strings_view(args@)) == Ok::<Command, Seq<char>>(c),
        r matches Err(e) ==> command_for(strings_view(args@)) == Err::<Command, Seq<char>>(e@),
{
    if args.len() < 2 {
        return Err("missing command".to_owned());
    }
    let command = &args[1];
    assert(command@ == strings_view(args@)[1]);
    if *command == "simulate".to_owned() {
        Ok(Command::Simulate)
    } else if *command == "generate-trace".to_owned() {
        Ok(Command::GenerateTrace)
    } else if *command == "--help".to_owned() || *command == "-h".to_owned() || *command
        == "help".to_owned() {
        Ok(Command::Help)
    } else {
        let mut msg = "unknown command: ".to_owned();
        msg.append(command.as_str());
        Err(msg)
    }
}

/// The cache policies the simulator can replay a trace with.
#[derive(Debug, Clone, Copy, PartialEq, Eq, Structural)]
pub enum PolicyKind {
    DramLru,
    NaiveFlash,
    FlashieldLite,
    FlashieldMl,
}

pub open spec fn policy_named(name: Seq<char>) -> Result<PolicyKind, Seq<char>> {
    if name == "dram-lru"@ {
        Ok(PolicyKind::DramLru)
    } else if name == "naive-flash"@ {
        Ok(PolicyKind::NaiveFlash)
    } else if name == "flashield-lite"@ {
        Ok(PolicyKind::FlashieldLite)
    } else if name == "flashield-ml"@ {
        Ok(PolicyKind::FlashieldMl)
    } else {
        Err("unknown policy: "@ + name)
    }
}

pub fn parse_policy(name: &str) -> (r: Result<PolicyKind, String>)
    ensures
        r matches Ok(k) ==> policy_named(name@) == Ok::<PolicyKind, Seq<char>>(k),
        r matches Err(e) ==> policy_named(name@) == Err::<PolicyKind, Seq<char>>(e@),
{
    let n = name.to_owned();
    if n == "dram-lru".to_owned() {
        Ok(PolicyKind::DramLru)
    } else if n == "naive-flash".to_owned() {
        Ok(PolicyKind::NaiveFlash)
    } else if n == "flashield-lite".to_owned() {
        Ok(PolicyKind::FlashieldLite)
    } else if n == "flashield-ml".to_owned() {
        Ok(PolicyKind::FlashieldMl)
    } else {
        let mut msg = "unknown policy: ".to_owned();
        msg.append(name);
        Err(msg)
    }
}

} // verus!
