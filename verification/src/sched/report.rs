use vstd::prelude::*;
use vstd::string::StringSliceAdditionalSpecFns;
use crate::disk_demo::{dec_digits, u64_to_dec};
use crate::sched::sim::{ContextSwitchEvent, ExperimentResult};

verus! {

/// Appends the decimal representation of `v`.
pub fn push_decimal(out: &mut Vec<u8>, v: u64)
    ensures
        final(out)@ == old(out)@ + dec_digits(v as nat),
{
    let mut digits: [u8; 20] = [0u8; 20];
    let len = u64_to_dec(v, &mut digits);
    let ghost pre = out@;
    let mut i: usize = 0;
    while i < len
        invariant
            i <= len <= 20,
            digits@.subrange(0, len as int) == dec_digits(v as nat),
            out@ == pre + digits@.subrange(0, i as int),
        decreases len - i,
    {
        out.push(digits[i]);
        proof {
            assert(digits@.subrange(0, i + 1) =~= digits@.subrange(0, i as int).push(digits@[i as int]));
        }
        i += 1;
    }
}

/// Appends the bytes of `s`.
pub fn push_str(out: &mut Vec<u8>, s: &str)
    ensures
        final(out)@ == old(out)@ + s.spec_bytes(),
{
    let bytes = s.as_bytes();
    let ghost pre = out@;
    let mut i: usize = 0;
    while i < bytes.len()
        invariant
            i <= bytes@.len(),
            out@ == pre + bytes@.subrange(0, i as int),
        decreases bytes@.len() - i,
    {
        out.push(bytes[i]);
        proof {
            assert(bytes@.subrange(0, i + 1) =~= bytes@.subrange(0, i as int).push(bytes@[i as int]));
        }
        i += 1;
    }
    proof {
        assert(bytes@.subrange(0, bytes@.len() as int) =~= bytes@);
    }
}

/// A task id in the log, or "-" for an idle CPU.
pub open spec fn task_field(t: Option<usize>) -> Seq<u8> {
    match t {
        Some(id) => dec_digits(id as nat),
        None => seq![45u8],
    }
}

/// One line of the context switch log.
pub open spec fn event_row(workload: Seq<u8>, scheduler: Seq<u8>, e: ContextSwitchEvent) -> Seq<u8> {
    workload + seq![44u8] + scheduler + seq![44u8] + dec_digits(e.ts as nat) + seq![44u8]
        + task_field(e.from) + seq![44u8] + task_field(e.to) + seq![44u8] + dec_digits(
        e.ready_len as nat,
    ) + seq![44u8] + dec_digits(e.run_fragment as nat) + seq![10u8]
}

/// The lines of the first `k` events of a run.
pub open spec fn event_rows(workload: Seq<u8>, scheduler: Seq<u8>, events: Seq<ContextSwitchEvent>, k: int) -> Seq<u8>
    decreases k,
{
    if k <= 0 {
        Seq::empty()
    } else {
        event_rows(workload, scheduler, events, k - 1) + event_row(workload, scheduler, events[k - 1])
    }
}

/// The lines of all events of the first `k` runs.
pub open spec fn result_rows(results: Seq<ExperimentResult>, k: int) -> Seq<u8>
    decreases k,
{
    if k <= 0 {
        Seq::empty()
    } else {
        let r = results[k - 1];
        result_rows(results, k - 1) + event_rows(
            r.workload.spec_bytes(),
            r.scheduler.spec_bytes(),
            r.events@,
            r.events@.len() as int,
        )
    }
}

/// First line of the context switch log.
pub open spec fn switch_log_header() -> Seq<u8> {
    "workload,scheduler,timestamp,from,to,ready_len,run_fragment\n".spec_bytes()
}

fn push_task(out: &mut Vec<u8>, t: Option<usize>)
    ensures
        final(out)@ == old(out)@ + task_field(t),
{
    match t {
        Some(id) => push_decimal(out, id as u64),
        None => {
            out.push(45);
            proof {
                assert(final(out)@ =~= old(out)@ + seq![45u8]);
            }
        },
    }
}

fn push_event_row(out: &mut Vec<u8>, workload: &str, scheduler: &str, e: ContextSwitchEvent)
    ensures
        final(out)@ == old(out)@ + event_row(workload.spec_bytes(), scheduler.spec_bytes(), e),
{
    let ghost w = workload.spec_bytes();
    let ghost s = scheduler.spec_bytes();
    let ghost o = out@;
    push_str(out, workload);
    out.push(44);
    push_str(out, scheduler);
    out.push(44);
    let ghost p1 = out@;
    assert(p1 =~= o + (w + seq![44u8] + s + seq![44u8]));
    push_decimal(out, e.ts);
    out.push(44);
    push_task(out, e.from);
    out.push(44);
    let ghost p2 = out@;
    assert(p2 =~= p1 + (dec_digits(e.ts as nat) + seq![44u8] + task_field(e.from) + seq![44u8]));
    push_task(out, e.to);
    out.push(44);
    push_decimal(out, e.ready_len as u64);
    out.push(44);
    let ghost p3 = out@;
    assert(p3 =~= p2 + (task_field(e.to) + seq![44u8] + dec_digits(e.ready_len as nat) + seq![44u8]));
    push_decimal(out, e.run_fragment);
    out.push(10);
    assert(out@ =~= p3 + (dec_digits(e.run_fragment as nat) + seq![10u8]));
    assert(out@ =~= o + event_row(w, s, e));
}

/// The context switch log of all runs as CSV text: a header line, then one
/// line per switch with workload, policy, tick, from, to (or "-"), ready
/// count and run fragment.
pub fn context_switch_csv(results: &Vec<ExperimentResult>) -> (text: Vec<u8>)
    ensures
        text@ == switch_log_header() + result_rows(results@, results@.len() as int),
{
    let mut out: Vec<u8> = Vec::new();
    push_str(&mut out, "workload,scheduler,timestamp,from,to,ready_len,run_fragment\n");
    let mut i: usize = 0;
    while i < results.len()
        invariant
            i <= results@.len(),
            out@ == switch_log_header() + result_rows(results@, i as int),
        decreases results@.len() - i,
    {
        let r = &results[i];
        let ghost pre = out@;
        let ghost w = r.workload.spec_bytes();
        let ghost s = r.scheduler.spec_bytes();
        let mut k: usize = 0;
        while k < r.events.len()
            invariant
                k <= r.events@.len(),
                r == results@[i as int],
                w == r.workload.spec_bytes(),
                s == r.scheduler.spec_bytes(),
                out@ == pre + event_rows(w, s, r.events@, k as int),
            decreases r.events@.len() - k,
        {
            let e = r.events[k];
            push_event_row(&mut out, r.workload, r.scheduler, e);
            proof {
                assert(pre + event_rows(w, s, r.events@, k + 1) =~= pre + event_rows(w, s, r.events@, k as int) + event_row(w, s, e));
            }
            k += 1;
        }
        proof {
            assert(switch_log_header() + result_rows(results@, i + 1) =~= switch_log_header() + result_rows(results@, i as int) + event_rows(w, s, r.events@, r.events@.len() as int));
        }
        i += 1;
    }
    out
}

/// The fields of a switch after the workload and policy names: tick, from,
/// to (or "-"), ready count and run fragment, and the line's end.
pub open spec fn switch_fields(e: ContextSwitchEvent) -> Seq<u8> {
    dec_digits(e.ts as nat) + seq![44u8] + task_field(e.from) + seq![44u8] + task_field(e.to)
        + seq![44u8] + dec_digits(e.ready_len as nat) + seq![44u8] + dec_digits(e.run_fragment as nat)
        + seq![10u8]
}

/// The lines of one run: a line per switch, in order, each starting with that
/// run's own workload and policy names.
pub open spec fn run_lines(r: ExperimentResult) -> Seq<u8> {
    Seq::new(
        r.events@.len(),
        |k: int|
            r.workload.spec_bytes() + seq![44u8] + r.scheduler.spec_bytes() + seq![44u8] + switch_fields(
                r.events@[k],
            ),
    ).flatten_alt()
}

proof fn lemma_event_rows_lines(r: ExperimentResult, k: int)
    requires
        0 <= k <= r.events@.len(),
    ensures
        event_rows(r.workload.spec_bytes(), r.scheduler.spec_bytes(), r.events@, k) == Seq::new(
            k as nat,
            |j: int|
                r.workload.spec_bytes() + seq![44u8] + r.scheduler.spec_bytes() + seq![44u8]
                    + switch_fields(r.events@[j]),
        ).flatten_alt(),
    decreases k,
{
    let w = r.workload.spec_bytes();
    let s = r.scheduler.spec_bytes();
    let f = |j: int| w + seq![44u8] + s + seq![44u8] + switch_fields(r.events@[j]);
    if k > 0 {
        lemma_event_rows_lines(r, k - 1);
        let lines = Seq::new(k as nat, f);
        assert(lines.drop_last() =~= Seq::new((k - 1) as nat, f));
        assert(event_row(w, s, r.events@[k - 1]) =~= f(k - 1));
    } else {
        assert(Seq::new(0, f) =~= Seq::<Seq<u8>>::empty());
    }
}

/// The context switch log lists the runs in order, each with its own names:
/// after the header come, for each result in turn, the lines of that
/// result's switches, each line starting with that result's workload and
/// policy names.
pub proof fn lemma_switch_log_per_run(results: Seq<ExperimentResult>, text: Seq<u8>)
    requires
        text == switch_log_header() + result_rows(results, results.len() as int),
    ensures
        text == switch_log_header() + results.map_values(|r: ExperimentResult| run_lines(r)).flatten(),
{
    lemma_result_rows_runs(results, results.len() as int);
    assert(results.take(results.len() as int) =~= results);
    results.map_values(|r: ExperimentResult| run_lines(r)).lemma_flatten_and_flatten_alt_are_equivalent();
}

proof fn lemma_result_rows_runs(results: Seq<ExperimentResult>, k: int)
    requires
        0 <= k <= results.len(),
    ensures
        result_rows(results, k) == results.take(k).map_values(|r: ExperimentResult| run_lines(r)).flatten_alt(),
    decreases k,
{
    let f = |r: ExperimentResult| run_lines(r);
    if k > 0 {
        lemma_result_rows_runs(results, k - 1);
        let r = results[k - 1];
        lemma_event_rows_lines(r, r.events@.len() as int);
        let m = results.take(k).map_values(f);
        assert(m.drop_last() =~= results.take(k - 1).map_values(f));
        assert(m.last() == run_lines(r));
    } else {
        assert(results.take(0).map_values(f) =~= Seq::<Seq<u8>>::empty());
    }
}

} // verus!
