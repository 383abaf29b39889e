//! Running test plans, each in a virtual machine of its own.
use crate::json;
use crate::paths;
use crate::seqs;
use crate::text;
use vstd::prelude::*;

verus! {

/// How often a machine is asked for its connection details, one second apart.
pub const VM_READY_TIMEOUT_SECS: u64 = 60;

/// How often a connection is tried.
pub const SSH_CONNECTIVITY_MAX_ATTEMPTS: u32 = 60;

/// How long to wait between two tries, in seconds.
pub const SSH_CONNECTIVITY_RETRY_DELAY_SECS: u64 = 3;

/// How many characters a random suffix has.
pub const SUFFIX_LEN: usize = 8;

/// `char::is_alphanumeric` on the characters beyond ASCII.
pub uninterp spec fn alphanumeric(c: char) -> bool;

/// The letters and digits of ASCII.
pub open spec fn ascii_alphanumeric(c: char) -> bool {
    'a' <= c <= 'z' || 'A' <= c <= 'Z' || '0' <= c <= '9'
}

/// Whether a character is a letter or a digit.
pub open spec fn letter_or_digit(c: char) -> bool {
    if c >= '\u{80}' {
        alphanumeric(c)
    } else {
        ascii_alphanumeric(c)
    }
}

/// `char::is_alphanumeric`: on ASCII, the letters and the digits. Beyond ASCII it follows Unicode's
/// tables, of which nothing is said here.
#[verifier::external_body]
fn is_alphanumeric(c: char) -> (r: bool)
    ensures
        c < '\u{80}' ==> r == ascii_alphanumeric(c),
        c >= '\u{80}' ==> r == alphanumeric(c),
{
    c.is_alphanumeric()
}

/// Draws an index below `n` with `rand`'s thread-local generator: `Rng::random_range` over `0..n`.
/// Which index comes is left to chance.
#[verifier::external_body]
fn random_index(n: usize) -> (r: usize)
    requires
        n > 0,
    ensures
        r < n,
{
    rand::Rng::random_range(&mut rand::rng(), 0..n)
}

/// The characters that a random suffix is made of: lower-case letters, then digits.
pub open spec fn suffix_char(i: int) -> char {
    if i < 26 {
        (97 + i) as char
    } else {
        (22 + i) as char
    }
}

/// Whether a character can stand in a random suffix.
pub open spec fn is_suffix_char(c: char) -> bool {
    'a' <= c <= 'z' || '0' <= c <= '9'
}

/// The suffix that the drawn indices spell.
pub fn suffix_of(indices: &Vec<usize>) -> (r: String)
    requires
        forall|i: int| 0 <= i < indices@.len() ==> #[trigger] indices@[i] < 36,
    ensures
        r@ == indices@.map_values(|i: usize| suffix_char(i as int)),
{
    let mut r = String::new();
    let mut k: usize = 0;
    while k < indices.len()
        invariant
            k <= indices@.len(),
            forall|i: int| 0 <= i < indices@.len() ==> #[trigger] indices@[i] < 36,
            r@ == indices@.take(k as int).map_values(|i: usize| suffix_char(i as int)),
        decreases indices@.len() - k,
    {
        let i = indices[k];
        assert(indices@[k as int] < 36);
        let c: u8 = if i < 26 {
            97 + i as u8
        } else {
            22 + i as u8
        };
        r.push(c as char);
        k += 1;
        assert(indices@.take(k as int) =~= indices@.take(k - 1).push(i));
        assert(r@ =~= indices@.take(k as int).map_values(|i: usize| suffix_char(i as int)));
    }
    assert(indices@.take(k as int) == indices@);
    r
}

/// A random suffix for the names of machines: eight lower-case letters and digits.
pub fn generate_random_suffix() -> (r: String)
    ensures
        r@.len() == SUFFIX_LEN,
        forall|i: int| 0 <= i < r@.len() ==> is_suffix_char(#[trigger] r@[i]),
{
    let mut indices: Vec<usize> = Vec::new();
    while indices.len() < SUFFIX_LEN
        invariant
            indices@.len() <= SUFFIX_LEN,
            forall|i: int| 0 <= i < indices@.len() ==> #[trigger] indices@[i] < 36,
        decreases SUFFIX_LEN - indices@.len(),
    {
        indices.push(random_index(36));
    }
    let r = suffix_of(&indices);
    assert forall|i: int| 0 <= i < r@.len() implies is_suffix_char(#[trigger] r@[i]) by {
        assert(r@[i] == suffix_char(indices@[i] as int));
    }
    r
}

/// Whether a character can stand in the name of a machine.
pub open spec fn is_name_char(c: char) -> bool {
    c == '-' || c == '_' || letter_or_digit(c)
}

/// What stands for a character in the name of a machine.
pub open spec fn name_char(c: char) -> char {
    if is_name_char(c) {
        c
    } else {
        '-'
    }
}

/// A plan's name, made fit for the name of a machine: any character but letters, digits, `-` and
/// `_` becomes a dash, dashes at the ends go, and `plan` stands in where nothing is left.
pub open spec fn sanitized(plan: Seq<char>) -> Seq<char> {
    let s = text::stripped_end(
        text::stripped_start(plan.map_values(|c: char| name_char(c)), '-'),
        '-',
    );
    if s.len() == 0 {
        "plan"@
    } else {
        s
    }
}

/// A plan's name, made fit for the name of a machine.
pub fn sanitize_plan_name(plan: &str) -> (r: String)
    ensures
        r@ == sanitized(plan@),
{
    let v = text::chars_of(plan);
    let mut s = String::new();
    let mut i: usize = 0;
    while i < v.len()
        invariant
            i <= v@.len(),
            s@ == v@.take(i as int).map_values(|c: char| name_char(c)),
        decreases v@.len() - i,
    {
        let c = v[i];
        if c == '-' || c == '_' || is_alphanumeric(c) {
            s.push(c);
        } else {
            s.push('-');
        }
        i += 1;
        assert(v@.take(i as int) =~= v@.take(i - 1).push(c));
        assert(s@ =~= v@.take(i as int).map_values(|c: char| name_char(c)));
    }
    assert(v@.take(i as int) == v@);
    let t = text::trim_matches(s.as_str(), '-');
    if t.unicode_len() == 0 {
        "plan".to_owned()
    } else {
        t.to_owned()
    }
}

proof fn lemma_stripped(s: Seq<char>, c: char)
    ensures
        ({
            let t = text::stripped_end(text::stripped_start(s, c), c);
            &&& t.len() > 0 ==> t[0] != c && t.last() != c
            &&& forall|i: int| 0 <= i < t.len() ==> s.contains(#[trigger] t[i])
        }),
{
    lemma_stripped_start(s, c);
    lemma_stripped_end(text::stripped_start(s, c), c);
    let a = text::stripped_start(s, c);
    let t = text::stripped_end(a, c);
    assert forall|i: int| 0 <= i < t.len() implies s.contains(#[trigger] t[i]) by {
        assert(t[i] == a[i]);
        assert(a.contains(a[i]));
    }
}

proof fn lemma_stripped_start(s: Seq<char>, c: char)
    ensures
        text::stripped_start(s, c).len() > 0 ==> text::stripped_start(s, c)[0] != c,
        forall|x: char| text::stripped_start(s, c).contains(x) ==> s.contains(x),
    decreases s.len(),
{
    if s.len() > 0 && s[0] == c {
        lemma_stripped_start(s.drop_first(), c);
        assert forall|x: char| text::stripped_start(s, c).contains(x) implies s.contains(x) by {
            let i = s.drop_first().index_of(x);
            assert(s.drop_first().contains(x));
            assert(s.drop_first()[i] == s[i + 1]);
        }
    }
}

proof fn lemma_stripped_end(s: Seq<char>, c: char)
    ensures
        text::stripped_end(s, c).is_prefix_of(s),
        text::stripped_end(s, c).len() > 0 ==> text::stripped_end(s, c).last() != c,
    decreases s.len(),
{
    if s.len() > 0 && s.last() == c {
        lemma_stripped_end(s.drop_last(), c);
    }
}

/// A sanitized name is never empty, neither starts nor ends with a dash, and holds nothing but
/// letters, digits, dashes and underscores.
pub proof fn law_sanitized(plan: Seq<char>)
    ensures
        sanitized(plan).len() > 0,
        sanitized(plan)[0] != '-',
        sanitized(plan).last() != '-',
        forall|i: int|
            0 <= i < sanitized(plan).len() ==> is_name_char(#[trigger] sanitized(plan)[i]),
{
    reveal_strlit("plan");
    let m = plan.map_values(|c: char| name_char(c));
    lemma_stripped(m, '-');
    let t = text::stripped_end(text::stripped_start(m, '-'), '-');
    if t.len() > 0 {
        assert forall|i: int| 0 <= i < t.len() implies is_name_char(#[trigger] t[i]) by {
            assert(m.contains(t[i]));
            let k = m.index_of(t[i]);
            assert(m[k] == name_char(plan[k]));
        }
    }
}

/// Sanitizing a name a second time changes nothing.
pub proof fn law_sanitized_twice(plan: Seq<char>)
    ensures
        sanitized(sanitized(plan)) == sanitized(plan),
{
    law_sanitized(plan);
    let s = sanitized(plan);
    assert(s.map_values(|c: char| name_char(c)) =~= s);
    assert(text::stripped_start(s, '-') == s);
    assert(text::stripped_end(s, '-') == s);
}

/// Letters, digits, dashes and underscores stay: a name of ASCII letters and digits, with dashes and
/// underscores in between, is its own sanitized name.
pub proof fn law_sanitized_keeps(plan: Seq<char>)
    requires
        plan.len() > 0,
        plan[0] != '-',
        plan.last() != '-',
        forall|i: int|
            0 <= i < plan.len() ==> ascii_alphanumeric(#[trigger] plan[i]) || plan[i] == '-'
                || plan[i] == '_',
    ensures
        sanitized(plan) == plan,
{
    assert(plan.map_values(|c: char| name_char(c)) =~= plan);
    assert(text::stripped_start(plan, '-') == plan);
    assert(text::stripped_end(plan, '-') == plan);
}

/// The connection details of a machine, where both a port and a key are known. A port beyond 16 bits
/// loses its upper bits.
pub open spec fn connection(port: Option<u64>, key: Option<Seq<char>>) -> Option<(u16, Seq<char>)> {
    match (port, key) {
        (Some(p), Some(k)) => Some(((p % 0x10000) as u16, k)),
        _ => None,
    }
}

/// The view of connection details.
pub open spec fn connection_view(c: Option<(u16, String)>) -> Option<(u16, Seq<char>)> {
    match c {
        Some((p, k)) => Some((p, k@)),
        None => None,
    }
}

/// The port and the private key that a machine's JSON description gives.
pub open spec fn described(j: json::Json) -> (Option<u64>, Option<Seq<char>>) {
    (
        match json::member(j, "ssh_port"@) {
            Some(json::Json::Unsigned(n)) => Some(n),
            _ => None,
        },
        match json::member(j, "ssh_private_key"@) {
            Some(json::Json::Text(t)) => Some(t),
            _ => None,
        },
    )
}

/// The connection details made of a port and a key.
pub fn connection_details(port: Option<u64>, key: Option<&str>) -> (r: Option<(u16, String)>)
    ensures
        connection_view(r) == connection(port, text::opt_slice_view(key)),
{
    match (port, key) {
        (Some(p), Some(k)) => {
            assert(p as u16 == p % 0x10000) by (bit_vector);
            Some((p as u16, k.to_owned()))
        },
        _ => None,
    }
}

/// The connection details in the output of `bcvk libvirt inspect`.
pub fn inspected(output: &str) -> (r: Option<(u16, String)>)
    ensures
        connection_view(r) == match json::parsed(output@) {
            Some(j) => connection(described(j).0, described(j).1),
            None => None,
        },
{
    match json::from_str(output) {
        Ok(v) => {
            let port = match json::get(&v, "ssh_port") {
                Some(p) => json::as_u64(p),
                None => None,
            };
            let key = match json::get(&v, "ssh_private_key") {
                Some(k) => json::as_str(k),
                None => None,
            };
            connection_details(port, key)
        },
        Err(_) => None,
    }
}

/// What to do after asking a machine for its connection details.
pub enum VmPoll {
    Ready(u16, String),
    /// Wait a second and ask again.
    Retry,
    /// Give up, with this message.
    Failed(String),
}

/// The message for a machine that never became ready.
pub open spec fn not_ready(vm_name: Seq<char>) -> Seq<char> {
    "VM "@ + vm_name + " did not become ready within "@ + text::decimal(
        VM_READY_TIMEOUT_SECS as nat,
    ) + " seconds"@
}

/// Decides what follows attempt number `attempt`, counted from one.
pub fn after_vm_poll(attempt: u64, details: Option<(u16, String)>, vm_name: &str) -> (r: VmPoll)
    ensures
        match r {
            VmPoll::Ready(p, k) => connection_view(details) == Some((p, k@)),
            VmPoll::Retry => details is None && attempt < VM_READY_TIMEOUT_SECS,
            VmPoll::Failed(m) => details is None && attempt >= VM_READY_TIMEOUT_SECS && m@
                == not_ready(vm_name@),
        },
{
    match details {
        Some((p, k)) => VmPoll::Ready(p, k),
        None => if attempt < VM_READY_TIMEOUT_SECS {
            VmPoll::Retry
        } else {
            let seconds = text::decimal_text(VM_READY_TIMEOUT_SECS);
            VmPoll::Failed(
                text::concat5(
                    "VM ",
                    vm_name,
                    " did not become ready within ",
                    seconds.as_str(),
                    " seconds",
                ),
            )
        },
    }
}

/// What to do after trying a connection.
pub enum SshPoll {
    Connected,
    /// Wait and try again.
    Retry,
    /// Give up, with this message.
    Failed(String),
}

/// Whether the output of the remote command shows a working connection.
pub open spec fn shows_root(output: Option<Seq<char>>) -> bool {
    match output {
        Some(o) => text::trimmed(o) == "root"@,
        None => false,
    }
}

/// Decides what follows try number `attempt`, counted from one. `output` is what the remote command
/// printed, or nothing where it failed. The second part is a progress message: one after every
/// tenth try that did not connect.
pub fn after_ssh_attempt(attempt: u32, output: Option<&str>) -> (r: (SshPoll, Option<String>))
    ensures
        match r.0 {
            SshPoll::Connected => shows_root(text::opt_slice_view(output)),
            SshPoll::Retry => !shows_root(text::opt_slice_view(output)) && attempt
                < SSH_CONNECTIVITY_MAX_ATTEMPTS,
            SshPoll::Failed(m) => !shows_root(text::opt_slice_view(output)) && attempt
                >= SSH_CONNECTIVITY_MAX_ATTEMPTS && m@ == "SSH connectivity check failed after "@
                + text::decimal(SSH_CONNECTIVITY_MAX_ATTEMPTS as nat) + " attempts"@,
        },
        text::opt_view(r.1) == if !shows_root(text::opt_slice_view(output)) && attempt % 10 == 0 {
            Some(
                "Waiting for SSH... attempt "@ + text::decimal(attempt as nat) + "/"@
                    + text::decimal(SSH_CONNECTIVITY_MAX_ATTEMPTS as nat),
            )
        } else {
            None
        },
{
    let connected = match output {
        Some(o) => text::same(text::trim(o), "root"),
        None => false,
    };
    if connected {
        return (SshPoll::Connected, None);
    }
    let max = text::decimal_text(SSH_CONNECTIVITY_MAX_ATTEMPTS as u64);
    let note = if attempt % 10 == 0 {
        let n = text::decimal_text(attempt as u64);
        Some(text::concat4("Waiting for SSH... attempt ", n.as_str(), "/", max.as_str()))
    } else {
        None
    };
    if attempt < SSH_CONNECTIVITY_MAX_ATTEMPTS {
        (SshPoll::Retry, note)
    } else {
        (
            SshPoll::Failed(
                text::concat3("SSH connectivity check failed after ", max.as_str(), " attempts"),
            ),
            note,
        )
    }
}

/// One step of running a plan, in their order.
#[derive(Debug, Clone, Copy, PartialEq, Eq, Structural)]
pub enum PlanStep {
    LaunchVm,
    WaitForVm,
    CreateKeyFile,
    ConvertKeyPath,
    WriteKey,
    RestrictKey,
    VerifySsh,
    RunTests,
}

/// How far a plan has come.
#[derive(Debug, Clone, Copy, PartialEq, Eq, Structural)]
pub enum PlanState {
    /// The step to perform next.
    Perform(PlanStep),
    /// Remove the machine.
    RemoveVm { passed: bool, ran: bool },
    /// Keep a copy of the key of the machine that stays.
    KeepKey { passed: bool },
    /// Nothing is left to do: whether the tests passed, and whether they ran at all.
    Finished { passed: bool, ran: bool },
}

/// The step after this one.
pub open spec fn step_after(s: PlanStep) -> Option<PlanStep> {
    match s {
        PlanStep::LaunchVm => Some(PlanStep::WaitForVm),
        PlanStep::WaitForVm => Some(PlanStep::CreateKeyFile),
        PlanStep::CreateKeyFile => Some(PlanStep::ConvertKeyPath),
        PlanStep::ConvertKeyPath => Some(PlanStep::WriteKey),
        PlanStep::WriteKey => Some(PlanStep::RestrictKey),
        PlanStep::RestrictKey => Some(PlanStep::VerifySsh),
        PlanStep::VerifySsh => Some(PlanStep::RunTests),
        PlanStep::RunTests => None,
    }
}

/// The state after a step succeeded or failed. A failure ends the plan; once a machine runs it is
/// removed on the way out, unless machines are preserved.
pub open spec fn next_state(s: PlanState, ok: bool, preserve: bool) -> PlanState {
    match s {
        PlanState::Perform(step) => match step_after(step) {
            Some(next) if ok => PlanState::Perform(next),
            Some(_) if step == PlanStep::LaunchVm || preserve => PlanState::Finished {
                passed: false,
                ran: false,
            },
            Some(_) => PlanState::RemoveVm { passed: false, ran: false },
            None if preserve => PlanState::KeepKey { passed: ok },
            None => PlanState::RemoveVm { passed: ok, ran: true },
        },
        PlanState::RemoveVm { passed, ran } => PlanState::Finished { passed, ran },
        PlanState::KeepKey { passed } => PlanState::Finished { passed, ran: true },
        PlanState::Finished { passed, ran } => PlanState::Finished { passed, ran },
    }
}

/// Takes a plan one step further.
pub fn advance(s: PlanState, ok: bool, preserve: bool) -> (r: PlanState)
    ensures
        r == next_state(s, ok, preserve),
{
    match s {
        PlanState::Perform(step) => {
            let next = match step {
                PlanStep::LaunchVm => Some(PlanStep::WaitForVm),
                PlanStep::WaitForVm => Some(PlanStep::CreateKeyFile),
                PlanStep::CreateKeyFile => Some(PlanStep::ConvertKeyPath),
                PlanStep::ConvertKeyPath => Some(PlanStep::WriteKey),
                PlanStep::WriteKey => Some(PlanStep::RestrictKey),
                PlanStep::RestrictKey => Some(PlanStep::VerifySsh),
                PlanStep::VerifySsh => Some(PlanStep::RunTests),
                PlanStep::RunTests => None,
            };
            match next {
                Some(n) => if ok {
                    PlanState::Perform(n)
                } else if step == PlanStep::LaunchVm || preserve {
                    PlanState::Finished { passed: false, ran: false }
                } else {
                    PlanState::RemoveVm { passed: false, ran: false }
                },
                None => if preserve {
                    PlanState::KeepKey { passed: ok }
                } else {
                    PlanState::RemoveVm { passed: ok, ran: true }
                },
            }
        },
        PlanState::RemoveVm { passed, ran } => PlanState::Finished { passed, ran },
        PlanState::KeepKey { passed } => PlanState::Finished { passed, ran: true },
        PlanState::Finished { passed, ran } => PlanState::Finished { passed, ran },
    }
}

/// How many steps are left at most.
pub open spec fn rank(s: PlanState) -> nat {
    match s {
        PlanState::Perform(PlanStep::LaunchVm) => 9,
        PlanState::Perform(PlanStep::WaitForVm) => 8,
        PlanState::Perform(PlanStep::CreateKeyFile) => 7,
        PlanState::Perform(PlanStep::ConvertKeyPath) => 6,
        PlanState::Perform(PlanStep::WriteKey) => 5,
        PlanState::Perform(PlanStep::RestrictKey) => 4,
        PlanState::Perform(PlanStep::VerifySsh) => 3,
        PlanState::Perform(PlanStep::RunTests) => 2,
        PlanState::RemoveVm { .. } => 1,
        PlanState::KeepKey { .. } => 1,
        PlanState::Finished { .. } => 0,
    }
}

/// The state in which a plan that is at `s` ends, where `outcome` tells how each step goes.
pub open spec fn end_of(
    s: PlanState,
    preserve: bool,
    outcome: spec_fn(PlanStep) -> bool,
) -> PlanState
    decreases rank(s),
{
    match s {
        PlanState::Finished { .. } => s,
        PlanState::Perform(step) => end_of(
            next_state(s, outcome(step), preserve),
            preserve,
            outcome,
        ),
        _ => end_of(next_state(s, true, preserve), preserve, outcome),
    }
}

/// How often a plan that is at `s` comes through a state of a kind.
pub open spec fn visits(
    s: PlanState,
    preserve: bool,
    outcome: spec_fn(PlanStep) -> bool,
    kind: spec_fn(PlanState) -> bool,
) -> nat
    decreases rank(s),
{
    let here: nat = if kind(s) {
        1
    } else {
        0
    };
    match s {
        PlanState::Finished { .. } => here,
        PlanState::Perform(step) => here + visits(
            next_state(s, outcome(step), preserve),
            preserve,
            outcome,
            kind,
        ),
        _ => here + visits(next_state(s, true, preserve), preserve, outcome, kind),
    }
}

/// Whether every step from `s` up to the tests goes well.
pub open spec fn prepared(s: PlanStep, outcome: spec_fn(PlanStep) -> bool) -> bool
    decreases rank(PlanState::Perform(s)),
{
    match step_after(s) {
        Some(next) => outcome(s) && prepared(next, outcome),
        None => true,
    }
}

proof fn lemma_plan_run(s: PlanStep, preserve: bool, outcome: spec_fn(PlanStep) -> bool)
    ensures
        ({
            let at = PlanState::Perform(s);
            let ran = prepared(s, outcome);
            let launched = s != PlanStep::LaunchVm || outcome(s);
            &&& end_of(at, preserve, outcome) == PlanState::Finished {
                passed: ran && outcome(PlanStep::RunTests),
                ran,
            }
            &&& visits(at, preserve, outcome, |x: PlanState| x is RemoveVm) == if launched
                && !preserve {
                1nat
            } else {
                0
            }
            &&& visits(at, preserve, outcome, |x: PlanState| x is KeepKey) == if ran && preserve {
                1nat
            } else {
                0
            }
        }),
    decreases rank(PlanState::Perform(s)),
{
    reveal_with_fuel(end_of, 3);
    reveal_with_fuel(visits, 3);
    match step_after(s) {
        Some(next) => {
            lemma_plan_run(next, preserve, outcome);
        },
        None => {},
    }
}

/// Whatever happens, a plan finishes. It passed exactly if every step went well, and its tests ran
/// exactly if every step before them went well. A machine that was launched is removed exactly once
/// unless machines are preserved, and one that was not launched is never removed. The key is kept
/// exactly if the tests ran on a machine that is preserved.
pub proof fn law_plan_run(preserve: bool, outcome: spec_fn(PlanStep) -> bool)
    ensures
        ({
            let start = PlanState::Perform(PlanStep::LaunchVm);
            let ran = prepared(PlanStep::LaunchVm, outcome);
            &&& end_of(start, preserve, outcome) == PlanState::Finished {
                passed: ran && outcome(PlanStep::RunTests),
                ran,
            }
            &&& visits(start, preserve, outcome, |x: PlanState| x is RemoveVm) == if outcome(
                PlanStep::LaunchVm,
            ) && !preserve {
                1nat
            } else {
                0
            }
            &&& visits(start, preserve, outcome, |x: PlanState| x is KeepKey) == if ran
                && preserve {
                1nat
            } else {
                0
            }
        }),
{
    lemma_plan_run(PlanStep::LaunchVm, preserve, outcome);
}

/// A context argument for each value, and one for the environment that the tests run in.
pub fn context_args(context: &Vec<String>) -> (r: Vec<String>)
    ensures
        text::views(r@) == text::views(context@).map_values(
            |v: Seq<char>| "--context="@ + v,
        ).push("--context=running_env=image_mode"@),
{
    let mut r: Vec<String> = Vec::new();
    let mut i: usize = 0;
    let ghost f = |v: Seq<char>| "--context="@ + v;
    while i < context.len()
        invariant
            i <= context@.len(),
            f == |v: Seq<char>| "--context="@ + v,
            text::views(r@) == text::views(context@.take(i as int)).map_values(f),
        decreases context@.len() - i,
    {
        let arg = text::concat2("--context=", context[i].as_str());
        text::push(&mut r, arg.as_str());
        i += 1;
        assert(text::views(context@.take(i as int)).map_values(f) =~= text::views(
            context@.take(i - 1),
        ).map_values(f).push(arg@));
    }
    assert(context@.take(i as int) == context@);
    text::push(&mut r, "--context=running_env=image_mode");
    r
}

/// Whether a line of `tmt plan ls`, trimmed, names a plan.
pub open spec fn names_plan(line: Seq<char>) -> bool {
    line.len() > 0 && line[0] == '/'
}

/// The plans that `tmt plan ls` lists.
pub open spec fn listed_plans(output: Seq<char>) -> Seq<Seq<char>> {
    text::lines_of(output).map_values(|l: Seq<char>| text::trimmed(l)).filter(
        |l: Seq<char>| names_plan(l),
    )
}

/// Whether a plan holds one of the filters; any plan does where there are none.
pub open spec fn is_selected(plan: Seq<char>, filters: Seq<Seq<char>>) -> bool {
    filters.len() == 0 || exists|i: int|
        0 <= i < filters.len() && text::occurs(plan, #[trigger] filters[i])
}

/// The plans to run.
pub open spec fn selected_plans(output: Seq<char>, filters: Seq<Seq<char>>) -> Seq<Seq<char>> {
    listed_plans(output).filter(|p: Seq<char>| is_selected(p, filters))
}

/// The plans that `tmt plan ls` lists.
pub fn list_plans(output: &str) -> (r: Vec<String>)
    ensures
        text::views(r@) == listed_plans(output@),
{
    let lines = text::lines(output);
    let mut r: Vec<String> = Vec::new();
    let mut i: usize = 0;
    let ghost all = text::lines_of(output@).map_values(|l: Seq<char>| text::trimmed(l));
    let ghost p = |l: Seq<char>| names_plan(l);
    assert(all.take(0).filter(p) =~= Seq::empty()) by {
        reveal(Seq::filter);
    }
    while i < lines.len()
        invariant
            i <= lines@.len(),
            text::slice_views(lines@) == text::lines_of(output@),
            all == text::lines_of(output@).map_values(|l: Seq<char>| text::trimmed(l)),
            p == |l: Seq<char>| names_plan(l),
            text::views(r@) == all.take(i as int).filter(p),
        decreases lines@.len() - i,
    {
        assert(text::slice_views(lines@)[i as int] == lines@[i as int]@);
        let line = text::trim(lines[i]);
        proof {
            seqs::lemma_filter_take(all, i as int, p);
            reveal_strlit("/");
        }
        if text::starts_with(line, "/") {
            assert(line@[0] == "/"@[0]);
            text::push(&mut r, line);
        } else {
            assert(!names_plan(line@)) by {
                if names_plan(line@) {
                    assert("/"@ =~= line@.subrange(0, 1));
                }
            }
        }
        i += 1;
    }
    assert(all.take(i as int) == all);
    r
}

/// The plans that the filters select, in their order.
pub fn filter_plans(plans: &Vec<String>, filters: &Vec<String>) -> (r: Vec<String>)
    ensures
        text::views(r@) == text::views(plans@).filter(
            |p: Seq<char>| is_selected(p, text::views(filters@)),
        ),
{
    let mut r: Vec<String> = Vec::new();
    let mut i: usize = 0;
    let ghost all = text::views(plans@);
    let ghost wanted = text::views(filters@);
    let ghost p = |p: Seq<char>| is_selected(p, wanted);
    assert(all.take(0).filter(p) =~= Seq::empty()) by {
        reveal(Seq::filter);
    }
    while i < plans.len()
        invariant
            i <= plans@.len(),
            all == text::views(plans@),
            wanted == text::views(filters@),
            p == |p: Seq<char>| is_selected(p, wanted),
            text::views(r@) == all.take(i as int).filter(p),
        decreases plans@.len() - i,
    {
        let plan = plans[i].as_str();
        let mut found = filters.len() == 0;
        let mut k: usize = 0;
        while k < filters.len() && !found
            invariant
                k <= filters@.len(),
                wanted == text::views(filters@),
                found ==> is_selected(plan@, wanted),
                !found ==> wanted.len() > 0 && forall|j: int|
                    0 <= j < k ==> !text::occurs(plan@, #[trigger] wanted[j]),
            decreases filters@.len() - k,
        {
            assert(wanted[k as int] == filters@[k as int]@);
            if text::contains(plan, filters[k].as_str()) {
                found = true;
            }
            k += 1;
        }
        assert(found == is_selected(plan@, wanted));
        assert(all[i as int] == plan@);
        proof {
            seqs::lemma_filter_take(all, i as int, p);
        }
        if found {
            text::push(&mut r, plan);
        }
        i += 1;
    }
    assert(all.take(i as int) == all);
    r
}

/// The plans to run: those listed that the filters select.
pub fn select_plans(output: &str, filters: &Vec<String>) -> (r: Vec<String>)
    ensures
        text::views(r@) == selected_plans(output@, text::views(filters@)),
{
    let plans = list_plans(output);
    filter_plans(&plans, filters)
}

/// A filter never adds a plan, and without one every listed plan is selected.
pub proof fn law_selection(output: Seq<char>, filters: Seq<Seq<char>>)
    ensures
        selected_plans(output, filters).len() <= listed_plans(output).len(),
        forall|p: Seq<char>|
            selected_plans(output, filters).contains(p) <==> listed_plans(output).contains(p)
                && is_selected(p, filters),
        selected_plans(output, Seq::empty()) == listed_plans(output),
{
    let all = listed_plans(output);
    let p = |p: Seq<char>| is_selected(p, filters);
    seqs::lemma_filter_members(all, p);
    let q = |p: Seq<char>| is_selected(p, Seq::empty());
    seqs::lemma_filter_all(all, q);
}

/// The name of the machine for a plan.
pub open spec fn vm_name_of(suffix: Seq<char>, plan: Seq<char>) -> Seq<char> {
    "bootc-tmt-"@ + suffix + "-"@ + sanitized(plan)
}

/// The name of the machine for a plan.
pub fn vm_name(suffix: &str, plan: &str) -> (r: String)
    ensures
        r@ == vm_name_of(suffix@, plan@),
{
    let name = sanitize_plan_name(plan);
    text::concat4("bootc-tmt-", suffix, "-", name.as_str())
}

/// The name of a machine that is provisioned by hand: the given one, or one made of the time, in
/// seconds, at which it is provisioned.
pub fn manual_vm_name(given: Option<&str>, timestamp: u64) -> (r: String)
    ensures
        r@ == match given {
            Some(n) => n@,
            None => "bootc-tmt-manual-"@ + text::decimal(timestamp as nat),
        },
{
    match given {
        Some(n) => n.to_owned(),
        None => {
            let time = text::decimal_text(timestamp);
            text::concat2("bootc-tmt-manual-", time.as_str())
        },
    }
}

/// Where a key is kept for later use.
pub fn persistent_key_path(vm_name: &str) -> (r: String)
    ensures
        r@ == paths::joined("target"@, vm_name@ + ".ssh-key"@),
{
    let file = text::concat2(vm_name, ".ssh-key");
    paths::join("target", file.as_str())
}

/// The command that launches a machine.
pub fn launch_args(vm_name: &str, image: &str) -> (r: Vec<String>)
    ensures
        text::views(r@) == seq![
            "bcvk"@,
            "libvirt"@,
            "run"@,
            "--name"@,
            vm_name@,
            "--detach"@,
            "--firmware=uefi-insecure"@,
            "--label=bootc.test=1"@,
            image@,
        ],
{
    text::owned(
        &vec![
            "bcvk",
            "libvirt",
            "run",
            "--name",
            vm_name,
            "--detach",
            "--firmware=uefi-insecure",
            "--label=bootc.test=1",
            image,
        ],
    )
}

/// The command that removes a machine.
pub fn remove_args(vm_name: &str) -> (r: Vec<String>)
    ensures
        text::views(r@) == seq!["bcvk"@, "libvirt"@, "rm"@, "--stop"@, "--force"@, vm_name@],
{
    text::owned(&vec!["bcvk", "libvirt", "rm", "--stop", "--force", vm_name])
}

/// The command that describes a machine.
pub fn inspect_args(vm_name: &str) -> (r: Vec<String>)
    ensures
        text::views(r@) == seq!["bcvk"@, "libvirt"@, "inspect"@, vm_name@, "--format=json"@],
{
    text::owned(&vec!["bcvk", "libvirt", "inspect", vm_name, "--format=json"])
}

/// The command that tries a connection: exports and a `whoami`, as the test runner does.
pub fn ssh_args(key_path: &str, port: u16) -> (r: Vec<String>)
    ensures
        text::views(r@) == seq![
            "ssh"@,
            "-i"@,
            key_path@,
            "-p"@,
            text::decimal(port as nat),
            "-o"@,
            "StrictHostKeyChecking=no"@,
            "-o"@,
            "UserKnownHostsFile=/dev/null"@,
            "-o"@,
            "ConnectTimeout=5"@,
            "-o"@,
            "IdentitiesOnly=yes"@,
            "root@localhost"@,
            "export TEST=value; whoami"@,
        ],
{
    let port_text = text::decimal_text(port as u64);
    text::owned(
        &vec![
            "ssh",
            "-i",
            key_path,
            "-p",
            port_text.as_str(),
            "-o",
            "StrictHostKeyChecking=no",
            "-o",
            "UserKnownHostsFile=/dev/null",
            "-o",
            "ConnectTimeout=5",
            "-o",
            "IdentitiesOnly=yes",
            "root@localhost",
            "export TEST=value; whoami",
        ],
    )
}

/// The arguments that set environment variables in a test: `-e` and the setting, for each.
pub open spec fn env_settings(env: Seq<Seq<char>>) -> Seq<Seq<char>> {
    Seq::new(
        2 * env.len(),
        |i: int|
            if i % 2 == 0 {
                "-e"@
            } else {
                env[i / 2]
            },
    )
}

/// The arguments that set environment variables in a test.
pub fn env_args(env: &Vec<String>) -> (r: Vec<String>)
    ensures
        text::views(r@) == env_settings(text::views(env@)),
{
    let mut r: Vec<String> = Vec::new();
    let mut i: usize = 0;
    while i < env.len()
        invariant
            i <= env@.len(),
            text::views(r@) == env_settings(text::views(env@.take(i as int))),
        decreases env@.len() - i,
    {
        text::push(&mut r, "-e");
        text::push(&mut r, env[i].as_str());
        i += 1;
        assert(text::views(r@) =~= env_settings(text::views(env@.take(i as int))));
    }
    assert(env@.take(i as int) == env@);
    r
}

/// The command that runs the tests of a plan, with these environment variables set. The provisioning
/// comes before the plan, which a connection needs.
pub fn run_args(
    context: &Vec<String>,
    env: &Vec<String>,
    run_id: &str,
    port: u16,
    key_path: &str,
    plan: &str,
) -> (r: Vec<String>)
    ensures
        text::views(r@) == seq!["tmt"@] + text::views(context@) + seq![
            "run"@,
            "--id"@,
            run_id@,
            "--all"@,
            "-e"@,
            "TMT_SCRIPTS_DIR=/var/lib/tmt/scripts"@,
        ] + env_settings(text::views(env@)) + seq![
            "provision"@,
            "--how=connect"@,
            "--guest=localhost"@,
            "--user=root"@,
            "--port"@,
            text::decimal(port as nat),
            "--key"@,
            key_path@,
            "plan"@,
            "--name"@,
            plan@,
        ],
{
    let port_text = text::decimal_text(port as u64);
    let mut r = text::owned(&vec!["tmt"]);
    text::push_all(&mut r, context);
    let run = text::owned(
        &vec!["run", "--id", run_id, "--all", "-e", "TMT_SCRIPTS_DIR=/var/lib/tmt/scripts"],
    );
    text::push_all(&mut r, &run);
    let settings = env_args(env);
    text::push_all(&mut r, &settings);
    let rest = text::owned(
        &vec![
            "provision",
            "--how=connect",
            "--guest=localhost",
            "--user=root",
            "--port",
            port_text.as_str(),
            "--key",
            key_path,
            "plan",
            "--name",
            plan,
        ],
    );
    text::push_all(&mut r, &rest);
    r
}

/// What came of a plan, with the identifier of its run where its tests ran.
pub struct TestResult {
    pub plan: String,
    pub passed: bool,
    pub run_id: Option<String>,
}

/// What came of a plan that finished. The identifier of a run is the name of its machine.
pub fn test_result(plan: &str, vm_name: &str, passed: bool, ran: bool) -> (r: TestResult)
    ensures
        r.plan@ == plan@,
        r.passed == passed,
        text::opt_view(r.run_id) == if ran {
            Some(vm_name@)
        } else {
            None
        },
{
    TestResult {
        plan: plan.to_owned(),
        passed,
        run_id: if ran {
            Some(vm_name.to_owned())
        } else {
            None
        },
    }
}

/// One line of the summary.
pub open spec fn summary_line(t: TestResult) -> Seq<char> {
    t.plan@ + ": "@ + if t.passed {
        "PASSED"@
    } else {
        "FAILED"@
    }
}

/// The summary: a line for each plan.
pub fn summary_lines(results: &Vec<TestResult>) -> (r: Vec<String>)
    ensures
        text::views(r@) == results@.map_values(|t: TestResult| summary_line(t)),
{
    let mut r: Vec<String> = Vec::new();
    let mut i: usize = 0;
    let ghost f = |t: TestResult| summary_line(t);
    while i < results.len()
        invariant
            i <= results@.len(),
            f == |t: TestResult| summary_line(t),
            text::views(r@) == results@.take(i as int).map_values(f),
        decreases results@.len() - i,
    {
        let t = &results[i];
        let line = text::concat3(
            t.plan.as_str(),
            ": ",
            if t.passed {
                "PASSED"
            } else {
                "FAILED"
            },
        );
        text::push(&mut r, line.as_str());
        i += 1;
        assert(results@.take(i as int).map_values(f) =~= results@.take(i - 1).map_values(f).push(
            line@,
        ));
    }
    assert(results@.take(i as int) == results@);
    r
}

/// Whether all plans passed. A run of plans fails unless they did.
pub fn all_passed(results: &Vec<TestResult>) -> (r: bool)
    ensures
        r == forall|i: int| 0 <= i < results@.len() ==> (#[trigger] results@[i]).passed,
{
    let mut i: usize = 0;
    while i < results.len()
        invariant
            i <= results@.len(),
            forall|j: int| 0 <= j < i ==> (#[trigger] results@[j]).passed,
        decreases results@.len() - i,
    {
        if !results[i].passed {
            return false;
        }
        i += 1;
    }
    true
}

/// The detailed report on a plan that failed: what to print, and the command that prints the rest.
pub struct FailureReport {
    pub lines: Vec<String>,
    pub command: Option<Vec<String>>,
}

/// The report on a plan that failed; nothing for one that passed.
pub fn failure_report(t: &TestResult) -> (r: Option<FailureReport>)
    ensures
        r is None <==> t.passed,
        r matches Some(f) ==> {
            let rule = "----------------------------------------"@;
            let head = seq![rule, "Plan: "@ + t.plan@, rule];
            match t.run_id {
                Some(id) => {
                    &&& text::views(f.lines@) == head.push("Run ID: "@ + id@ + "\n"@)
                    &&& f.command matches Some(c)
                    &&& text::views(c@) == seq!["tmt"@, "run"@, "-i"@, id@, "report"@, "-vvv"@]
                },
                None => {
                    &&& text::views(f.lines@) == head.push(
                        "Run ID not available - cannot generate detailed report"@,
                    )
                    &&& f.command is None
                },
            }
        },
{
    if t.passed {
        return None;
    }
    let rule = "----------------------------------------";
    let title = text::concat2("Plan: ", t.plan.as_str());
    let mut lines = text::owned(&vec![rule, title.as_str(), rule]);
    match &t.run_id {
        Some(id) => {
            let line = text::concat3("Run ID: ", id.as_str(), "\n");
            text::push(&mut lines, line.as_str());
            let command = text::owned(&vec!["tmt", "run", "-i", id.as_str(), "report", "-vvv"]);
            Some(FailureReport { lines, command: Some(command) })
        },
        None => {
            text::push(&mut lines, "Run ID not available - cannot generate detailed report");
            Some(FailureReport { lines, command: None })
        },
    }
}

/// The line that tells how to connect to a machine.
pub fn ssh_hint(key_path: &str, port: u16) -> (r: String)
    ensures
        r@ == "  ssh -i "@ + key_path@ + " -p "@ + text::decimal(port as nat)
            + " -o IdentitiesOnly=yes root@localhost"@,
{
    let p = text::decimal_text(port as u64);
    text::concat5(
        "  ssh -i ",
        key_path,
        " -p ",
        p.as_str(),
        " -o IdentitiesOnly=yes root@localhost",
    )
}

/// The lines printed about a machine that stays: its name, its port and its key.
pub fn vm_notice(vm_name: &str, port: u16, key_path: &str, headline: &str) -> (r: Vec<String>)
    ensures
        text::views(r@) == seq![
            "\n========================================"@,
            headline@,
            "========================================"@,
            "VM name: "@ + vm_name@,
            "SSH port: "@ + text::decimal(port as nat),
            "SSH key: "@ + key_path@,
        ],
{
    let p = text::decimal_text(port as u64);
    let name_line = text::concat2("VM name: ", vm_name);
    let port_line = text::concat2("SSH port: ", p.as_str());
    let key_line = text::concat2("SSH key: ", key_path);
    text::owned(
        &vec![
            "\n========================================",
            headline,
            "========================================",
            name_line.as_str(),
            port_line.as_str(),
            key_line.as_str(),
        ],
    )
}

/// The lines on how to reach and how to remove a machine.
pub fn vm_hints(vm_name: &str, port: u16, key_path: &str) -> (r: Vec<String>)
    ensures
        text::views(r@) == seq![
            "\nTo connect via SSH:"@,
            "  ssh -i "@ + key_path@ + " -p "@ + text::decimal(port as nat)
                + " -o IdentitiesOnly=yes root@localhost"@,
            "\nTo cleanup:"@,
            "  bcvk libvirt rm --stop --force "@ + vm_name@,
            "========================================\n"@,
        ],
{
    let hint = ssh_hint(key_path, port);
    let removal = text::concat2("  bcvk libvirt rm --stop --force ", vm_name);
    text::owned(
        &vec![
            "\nTo connect via SSH:",
            hint.as_str(),
            "\nTo cleanup:",
            removal.as_str(),
            "========================================\n",
        ],
    )
}

/// The lines on how to run tests on a machine.
pub fn tmt_hints(port: u16, key_path: &str) -> (r: Vec<String>)
    ensures
        text::views(r@) == seq![
            "\nTo use with tmt:"@,
            "  tmt run --all provision --how connect \\"@,
            "    --guest localhost --port "@ + text::decimal(port as nat) + " \\"@,
            "    --user root --key "@ + key_path@ + " \\"@,
            "    plan --name <PLAN_NAME>"@,
        ],
{
    let p = text::decimal_text(port as u64);
    let guest = text::concat3("    --guest localhost --port ", p.as_str(), " \\");
    let user = text::concat3("    --user root --key ", key_path, " \\");
    text::owned(
        &vec![
            "\nTo use with tmt:",
            "  tmt run --all provision --how connect \\",
            guest.as_str(),
            user.as_str(),
            "    plan --name <PLAN_NAME>",
        ],
    )
}

/// The message for a tool that is missing.
pub fn missing_tool(tool: &str) -> (r: String)
    ensures
        r@ == tool@ + " is not available in PATH"@,
{
    text::concat2(tool, " is not available in PATH")
}

/// The characters of a suffix are the small letters and then the digits.
pub proof fn law_suffix_char(i: int)
    requires
        0 <= i < 36,
    ensures
        suffix_char(i) == "abcdefghijklmnopqrstuvwxyz0123456789"@[i],
        is_suffix_char(suffix_char(i)),
{
    reveal_strlit("abcdefghijklmnopqrstuvwxyz0123456789");
}

/// Of a plan's name what cannot stand in a machine's name becomes a dash, but for its two ends, where
/// it goes; a name of which nothing is left becomes `plan`.
pub proof fn law_sanitized_parts(a: Seq<char>, s: Seq<char>, b: Seq<char>)
    requires
        forall|i: int| 0 <= i < a.len() ==> #[trigger] a[i] == '-' || !is_name_char(a[i]),
        forall|i: int| 0 <= i < b.len() ==> #[trigger] b[i] == '-' || !is_name_char(b[i]),
        s.len() > 0,
        is_name_char(s[0]) && s[0] != '-',
        is_name_char(s.last()) && s.last() != '-',
    ensures
        sanitized(a + s + b).len() == s.len(),
        forall|i: int|
            #![trigger sanitized(a + s + b)[i]]
            0 <= i < s.len() ==> sanitized(a + s + b)[i] == if is_name_char(s[i]) {
                s[i]
            } else {
                '-'
            },
        sanitized(a) == "plan"@,
{
    let f = |c: char| name_char(c);
    let t = s.map_values(f);
    let m = Seq::new(a.len(), |i: int| '-');
    let n = Seq::new(b.len(), |i: int| '-');
    assert((a + s + b).map_values(f) =~= m + (t + n));
    assert(a.map_values(f) =~= m);
    text::law_stripped('-', a.len(), t, b.len());
    lemma_dashes_before(a.len(), t + n);
    assert(text::stripped_end(Seq::<char>::empty(), '-').len() == 0);
    assert(text::stripped_start(m, '-') =~= Seq::<char>::empty());
}

proof fn lemma_dashes_before(m: nat, s: Seq<char>)
    requires
        s.len() > 0,
        s[0] != '-',
    ensures
        text::stripped_start(Seq::new(m, |i: int| '-') + s, '-') == s,
    decreases m,
{
    let all = Seq::new(m, |i: int| '-') + s;
    if m > 0 {
        let rest = Seq::new((m - 1) as nat, |i: int| '-') + s;
        assert(all[0] == '-');
        assert(all.drop_first() =~= rest);
        lemma_dashes_before((m - 1) as nat, s);
    } else {
        assert(all =~= s);
    }
}

/// A name has letters, digits, dashes and underscores, of ASCII no other character.
pub proof fn law_name_char(c: char)
    ensures
        c < '\u{80}' ==> (is_name_char(c) <==> 'a' <= c <= 'z' || 'A' <= c <= 'Z' || '0' <= c <= '9'
            || c == '-' || c == '_'),
{
}

/// There is a connection exactly if there are a port and a key, and it is through them; of a port its
/// lower sixteen bits count.
pub proof fn law_connection(port: u64, key: Seq<char>)
    ensures
        port < 0x10000 ==> connection(Some(port), Some(key)) == Some((port as u16, key)),
        connection(Some(port), Some(key)) matches Some((p, k)) && k == key && (port - p) % 0x10000
            == 0,
        connection(Some(port), None) is None,
        connection(None, Some(key)) is None,
        connection(None, None) is None,
{
}

/// A machine describes its port and its key as members of one object, the port as a number that is not
/// negative and the key as a text.
pub proof fn law_described(m: Map<Seq<char>, json::Json>, port: u64, key: Seq<char>)
    ensures
        described(json::Json::Object(m)).0 == Some(port) <==> m.contains_key("ssh_port"@)
            && m["ssh_port"@] == json::Json::Unsigned(port),
        described(json::Json::Object(m)).1 == Some(key) <==> m.contains_key("ssh_private_key"@)
            && m["ssh_private_key"@] == json::Json::Text(key),
        !m.contains_key("ssh_port"@) ==> described(json::Json::Object(m)).0 is None,
        !m.contains_key("ssh_private_key"@) ==> described(json::Json::Object(m)).1 is None,
{
}

/// A login counts exactly if it shows `root`, whatever white space is around it.
pub proof fn law_shows_root(a: Seq<char>, who: Seq<char>, b: Seq<char>)
    requires
        forall|i: int| 0 <= i < a.len() ==> text::is_space(#[trigger] a[i]),
        forall|i: int| 0 <= i < b.len() ==> text::is_space(#[trigger] b[i]),
        who.len() > 0 ==> !text::is_space(who[0]) && !text::is_space(who.last()),
    ensures
        shows_root(Some(a + who + b)) <==> who == "root"@,
        !shows_root(None),
{
    text::law_trimmed(a, who, b);
}

/// A machine that does not come up is told by its name, after a minute.
pub proof fn law_not_ready(vm_name: Seq<char>)
    ensures
        not_ready(vm_name) == "VM "@ + vm_name + " did not become ready within "@ + text::decimal(60)
            + " seconds"@,
{
}

/// The tests run exactly if everything before them worked: the machine came up, its key was written
/// and is kept from others, and a login worked.
pub proof fn law_prepared(outcome: spec_fn(PlanStep) -> bool)
    ensures
        prepared(PlanStep::LaunchVm, outcome) <==> {
            &&& outcome(PlanStep::LaunchVm)
            &&& outcome(PlanStep::WaitForVm)
            &&& outcome(PlanStep::CreateKeyFile)
            &&& outcome(PlanStep::ConvertKeyPath)
            &&& outcome(PlanStep::WriteKey)
            &&& outcome(PlanStep::RestrictKey)
            &&& outcome(PlanStep::VerifySsh)
        },
{
    reveal_with_fuel(prepared, 9);
}

/// A plan is listed exactly if a line of the output is its name, but for white space around it, and
/// the name begins with a slash.
pub proof fn law_listed_plans(output: Seq<char>, plan: Seq<char>)
    ensures
        listed_plans(output).contains(plan) <==> plan.len() > 0 && plan[0] == '/' && exists|i: int|
            0 <= i < text::lines_of(output).len() && text::trimmed(
                #[trigger] text::lines_of(output)[i],
            ) == plan,
{
    let lines = text::lines_of(output);
    let all = lines.map_values(|l: Seq<char>| text::trimmed(l));
    let p = |l: Seq<char>| names_plan(l);
    seqs::lemma_filter_members(all, p);
    assert(listed_plans(output).contains(plan) <==> all.contains(plan) && p(plan));
    if all.contains(plan) {
        let i = all.index_of(plan);
        assert(text::trimmed(lines[i]) == plan);
    }
    if exists|i: int| 0 <= i < lines.len() && text::trimmed(#[trigger] lines[i]) == plan {
        let i = choose|i: int| 0 <= i < lines.len() && text::trimmed(#[trigger] lines[i]) == plan;
        assert(all[i] == plan);
    }
}

/// Without filters every plan is selected; with some, a plan is if one of them occurs in it.
pub proof fn law_is_selected(
    plan: Seq<char>,
    filters: Seq<Seq<char>>,
    a: Seq<char>,
    filter: Seq<char>,
    b: Seq<char>,
)
    ensures
        is_selected(plan, Seq::empty()),
        is_selected(a + filter + b, filters.push(filter)),
        filters.len() > 0 && is_selected(plan, filters) ==> is_selected(plan, filters.push(filter)),
        filters.len() > 0 && !is_selected(plan, filters) && !text::occurs(plan, filter)
            ==> !is_selected(plan, filters.push(filter)),
        is_selected(plan, seq![filter]) <==> text::occurs(plan, filter),
{
    text::law_occurs(plan, filter, a, b);
    let more = filters.push(filter);
    assert(more[filters.len() as int] == filter);
    assert(seq![filter][0] == filter);
    if filters.len() > 0 && is_selected(plan, filters) {
        let i = choose|i: int|
            0 <= i < filters.len() && text::occurs(plan, #[trigger] filters[i]);
        assert(more[i] == filters[i]);
    }
    if filters.len() > 0 && is_selected(plan, more) {
        let i = choose|i: int| 0 <= i < more.len() && text::occurs(plan, #[trigger] more[i]);
        if i < filters.len() {
            assert(filters[i] == more[i]);
        }
    }
}

/// Machines of two plans whose names stay apart have names that stay apart.
pub proof fn law_vm_name(suffix: Seq<char>, a: Seq<char>, b: Seq<char>)
    ensures
        vm_name_of(suffix, a) == vm_name_of(suffix, b) <==> sanitized(a) == sanitized(b),
        ("bootc-tmt-"@ + suffix + "-"@).is_prefix_of(vm_name_of(suffix, a)),
        sanitized(a).is_suffix_of(vm_name_of(suffix, a)),
{
    let front = "bootc-tmt-"@ + suffix + "-"@;
    text::law_taken_off(sanitized(a), front);
    text::law_taken_off(sanitized(b), front);
    text::law_taken_off(front, sanitized(a));
}

/// Every setting follows an `-e` of its own, in their order.
pub proof fn law_env_settings(env: Seq<Seq<char>>, i: int)
    requires
        0 <= i < env.len(),
    ensures
        env_settings(env).len() == 2 * env.len(),
        env_settings(env)[2 * i] == "-e"@,
        env_settings(env)[2 * i + 1] == env[i],
{
    assert((2 * i) % 2 == 0);
    assert((2 * i + 1) % 2 == 1 && (2 * i + 1) / 2 == i);
}

/// The summary says of each plan whether it passed.
pub proof fn law_summary_line(t: TestResult)
    ensures
        t.passed ==> summary_line(t) == t.plan@ + ": PASSED"@,
        !t.passed ==> summary_line(t) == t.plan@ + ": FAILED"@,
{
    reveal_strlit(": ");
    reveal_strlit("PASSED");
    reveal_strlit("FAILED");
    reveal_strlit(": PASSED");
    reveal_strlit(": FAILED");
    assert(t.plan@ + ": "@ + "PASSED"@ =~= t.plan@ + ": PASSED"@);
    assert(t.plan@ + ": "@ + "FAILED"@ =~= t.plan@ + ": FAILED"@);
}

} // verus!
