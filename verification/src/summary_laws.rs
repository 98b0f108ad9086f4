//! What the summaries and plain-text results promise: which numbers they show, and
//! under which words.

use crate::dense::at;
use crate::numerals::decimal;
use crate::results::{double_text, result_text, sample_text, DoubleText, SampleCells};
use crate::scheduler_epsilon_greedy::{arm_text, arms_text, ArmCells, ArmState};
use crate::scheduler_linucb::{
    addr_or_unknown, lines_text, linucb_summary, model_at, model_text, nonzero, path_total_text,
    path_totals_text, selected, share_text, share_texts, snapshot_text, tenths_text, LinUcbModel,
    ModelText, SelectPlan,
};
use crate::paths::Path;
use crate::text::{joined, pad_left};
use vstd::prelude::*;

verus! {

/// The text between two others.
pub open spec fn between(before: Seq<char>, part: Seq<char>, behind: Seq<char>) -> Seq<char> {
    before + part + behind
}

/// The text has the part somewhere.
pub open spec fn has_part(text: Seq<char>, part: Seq<char>) -> bool {
    exists|before: Seq<char>, behind: Seq<char>| text == #[trigger] between(before, part, behind)
}

proof fn lemma_part_of_part(text: Seq<char>, mid: Seq<char>, part: Seq<char>)
    requires
        has_part(text, mid),
        has_part(mid, part),
    ensures
        has_part(text, part),
{
    let (a, b) = choose|a: Seq<char>, b: Seq<char>| text == #[trigger] between(a, mid, b);
    let (c, d) = choose|c: Seq<char>, d: Seq<char>| mid == #[trigger] between(c, part, d);
    assert(text =~= between(a + c, part, d + b));
}

proof fn lemma_part(text: Seq<char>, before: Seq<char>, part: Seq<char>, behind: Seq<char>)
    requires
        text == before + part + behind,
    ensures
        has_part(text, part),
{
    assert(text == between(before, part, behind));
}

// ───────────────────────────── joined texts ─────────────────────────────

proof fn lemma_joined_part(parts: Seq<Seq<char>>, sep: Seq<char>, i: int)
    requires
        0 <= i < parts.len(),
    ensures
        has_part(joined(parts, sep), parts[i]),
    decreases parts.len(),
{
    let none = Seq::<char>::empty();
    let front = parts.drop_last();
    if parts.len() == 1 {
        assert(joined(parts, sep) =~= between(none, parts[i], none));
    } else if i == parts.len() - 1 {
        assert(joined(parts, sep) =~= between(joined(front, sep) + sep, parts[i], none));
    } else {
        lemma_joined_part(front, sep, i);
        assert(joined(parts, sep) =~= between(none, joined(front, sep), sep + parts.last()));
        assert(front[i] == parts[i]);
        lemma_part_of_part(joined(parts, sep), joined(front, sep), parts[i]);
    }
}

// ───────────────────────────── plain-text results ─────────────────────────────

/// The plain-text result shows of every sample its time, throughput, jitter and loss,
/// each behind its own name; a measurement of zero is a bare `0`, and any other is
/// shown as it is rendered.
pub proof fn plain_result_shows_every_measurement(cells: Seq<SampleCells>, i: int)
    requires
        0 <= i < cells.len(),
    ensures
        has_part(result_text(cells), "{'timestamp': "@ + cells[i].timestamp@ + ", "@),
        has_part(
            result_text(cells),
            "'throughput': "@ + double_text(cells[i].throughput) + ", "@,
        ),
        has_part(result_text(cells), "'jitter': "@ + double_text(cells[i].jitter) + ", "@),
        has_part(result_text(cells), "'packetLoss': "@ + double_text(cells[i].packet_loss) + "}"@),
{
    let c = cells[i];
    let all = cells.map_values(|c: SampleCells| sample_text(c));
    let text = result_text(cells);
    let s = sample_text(c);
    assert(all[i] == s);
    lemma_joined_part(all, ", "@, i);
    lemma_part(text, "Last Json Result: ["@, joined(all, ", "@), "]"@);
    lemma_part_of_part(text, joined(all, ", "@), s);
    reveal_strlit(", 'throughput': ");
    reveal_strlit(", 'jitter': ");
    reveal_strlit(", 'packetLoss': ");
    reveal_strlit("'throughput': ");
    reveal_strlit("'jitter': ");
    reveal_strlit("'packetLoss': ");
    reveal_strlit(", ");
    reveal_strlit("}");
    let t = c.timestamp@;
    let x = double_text(c.throughput);
    let y = double_text(c.jitter);
    let z = double_text(c.packet_loss);
    assert(", 'throughput': "@ =~= ", "@ + "'throughput': "@);
    assert(", 'jitter': "@ =~= ", "@ + "'jitter': "@);
    assert(", 'packetLoss': "@ =~= ", "@ + "'packetLoss': "@);
    let none = Seq::<char>::empty();
    let a = "{'timestamp': "@ + t + ", "@;
    let b = "'throughput': "@ + x + ", "@;
    let d = "'jitter': "@ + y + ", "@;
    let e = "'packetLoss': "@ + z + "}"@;
    assert(s =~= a + b + d + e);
    assert(s =~= none + a + (b + d + e));
    lemma_part(s, none, a, b + d + e);
    assert(s =~= a + b + (d + e));
    lemma_part(s, a, b, d + e);
    assert(s =~= (a + b) + d + e);
    lemma_part(s, a + b, d, e);
    assert(s =~= (a + b + d) + e + none);
    lemma_part(s, a + b + d, e, none);
    lemma_part_of_part(text, s, a);
    lemma_part_of_part(text, s, b);
    lemma_part_of_part(text, s, d);
    lemma_part_of_part(text, s, e);
}

/// Zero is rendered as a bare `0`, whatever its sign, and no other double is.
pub proof fn zero_is_bare(d: DoubleText)
    ensures
        d.bits == 0 || d.bits == 0x8000_0000_0000_0000 ==> double_text(d) == "0"@,
        d.bits != 0 && d.bits != 0x8000_0000_0000_0000 ==> double_text(d) == d.text@,
{
}

// ───────────────────────────── LinUCB ─────────────────────────────

/// The percentage of a share in tenths: whole percents alone, else with one decimal.
pub proof fn tenths_are_shown_as_percent(whole: nat, tenth: nat)
    requires
        tenth < 10,
    ensures
        tenth == 0 ==> tenths_text(whole * 10 + tenth) == decimal(whole) + "%"@,
        tenth > 0 ==> tenths_text(whole * 10 + tenth) == decimal(whole) + "."@ + decimal(tenth)
            + "%"@,
{
    assert((whole * 10 + tenth) / 10 == whole);
    assert((whole * 10 + tenth) % 10 == tenth);
}

proof fn lemma_share_of(
    counts: Seq<u64>,
    addrs: Seq<Option<Seq<char>>>,
    sum: nat,
    n: nat,
    pid: int,
) -> (k: int)
    requires
        n <= counts.len(),
        0 <= pid < n,
        counts[pid] > 0,
    ensures
        0 <= k < share_texts(counts, addrs, sum, n).len(),
        share_texts(counts, addrs, sum, n)[k] == share_text(
            pid as nat,
            match at(addrs, pid, None) {
                Some(a) => a,
                None => "?"@,
            },
            (counts[pid] as nat * 1000) / sum,
        ),
    decreases n,
{
    let before = share_texts(counts, addrs, sum, (n - 1) as nat);
    if pid < n - 1 {
        let k = lemma_share_of(counts, addrs, sum, (n - 1) as nat, pid);
        assert(share_texts(counts, addrs, sum, n)[k] == before[k]);
        k
    } else {
        before.len() as int
    }
}

/// The line of a second shows its time and, of every path that was selected in it, the
/// id, the address and the share of the selections in tenths of a percent.
pub proof fn snapshot_shows_every_share(
    elapsed_s: nat,
    counts: Seq<u64>,
    addrs: Seq<Option<Seq<char>>>,
    sum: nat,
    pid: int,
)
    requires
        0 <= pid < counts.len(),
        counts[pid] > 0,
    ensures
        ({
            let line = snapshot_text(elapsed_s, counts, addrs, sum);
            let addr = match at(addrs, pid, None) {
                Some(a) => a,
                None => "?"@,
            };
            let share = tenths_text((counts[pid] as nat * 1000) / sum);
            &&& has_part(line, "path["@ + decimal(pid as nat) + "] "@ + addr + " "@ + share)
            &&& has_part(line, "t="@ + pad_left(decimal(elapsed_s), 3) + "s:"@)
        }),
{
    let line = snapshot_text(elapsed_s, counts, addrs, sum);
    let texts = share_texts(counts, addrs, sum, counts.len());
    let k = lemma_share_of(counts, addrs, sum, counts.len(), pid);
    lemma_joined_part(texts, "  |  "@, k);
    let body = joined(texts, "  |  "@);
    let none = Seq::<char>::empty();
    let head = "  t="@ + pad_left(decimal(elapsed_s), 3) + "s:  "@;
    assert(line =~= head + body + none);
    lemma_part(line, head, body, none);
    lemma_part_of_part(line, body, texts[k]);
    reveal_strlit("  t=");
    reveal_strlit("t=");
    reveal_strlit("s:  ");
    reveal_strlit("s:");
    reveal_strlit("  ");
    assert("  t="@ =~= "  "@ + "t="@);
    assert("s:  "@ =~= "s:"@ + "  "@);
    let time = "t="@ + pad_left(decimal(elapsed_s), 3) + "s:"@;
    assert(line =~= "  "@ + time + ("  "@ + body));
    lemma_part(line, "  "@, time, "  "@ + body);
}

proof fn lemma_total_line(m: LinUcbModel, models: Seq<Option<ModelText>>, n: nat, pid: int)
    requires
        n <= m.total_counts.len(),
        0 <= pid < n,
        m.total_counts[pid] > 0,
    ensures
        has_part(path_totals_text(m, models, n), path_total_text(m, models, pid)),
    decreases n,
{
    let none = Seq::<char>::empty();
    let all = path_totals_text(m, models, n);
    let before = path_totals_text(m, models, (n - 1) as nat);
    let line = path_total_text(m, models, pid);
    if pid < n - 1 {
        lemma_total_line(m, models, (n - 1) as nat, pid);
        if m.total_counts[n - 1] != 0 {
            let last = path_total_text(m, models, n - 1);
            assert(all =~= none + before + last);
            lemma_part(all, none, before, last);
            lemma_part_of_part(all, before, line);
        }
    } else {
        assert(all =~= before + line + none);
        lemma_part(all, before, line, none);
    }
}

/// The summary shows of every path that was selected its id, its address, its
/// selections and their share of all in whole percents.
pub proof fn summary_shows_every_path(
    m: LinUcbModel,
    models: Seq<Option<ModelText>>,
    pid: int,
)
    requires
        0 <= pid < m.total_counts.len(),
        m.total_counts[pid] > 0,
    ensures
        ({
            let addr = match at(m.path_addrs, pid, None) {
                Some(a) => a,
                None => "?"@,
            };
            let n = m.total_counts[pid] as nat;
            has_part(
                linucb_summary(m, models),
                "    path["@ + decimal(pid as nat) + "] "@ + addr + "  selections="@ + decimal(n)
                    + " ("@ + decimal((n * 100) / m.total_selections) + "%)  est(neutral)="@,
            )
        }),
{
    let line = path_total_text(m, models, pid);
    lemma_summary_line(m, models, pid);
    let n = m.total_counts[pid] as nat;
    let part = "    path["@ + decimal(pid as nat) + "] "@ + addr_or_unknown(m.path_addrs, pid)
        + "  selections="@ + decimal(n) + " ("@ + decimal((n * 100) / m.total_selections)
        + "%)  est(neutral)="@;
    let model = model_text(model_at(models, pid), n);
    assert(line == part + model + "\n"@);
    assert(part + model + "\n"@ =~= Seq::empty() + part + (model + "\n"@));
    lemma_part(line, Seq::empty(), part, model + "\n"@);
    lemma_part_of_part(linucb_summary(m, models), line, part);
}

/// The summary begins with the number of all selections.
pub proof fn summary_starts_with_all_selections(m: LinUcbModel, models: Seq<Option<ModelText>>)
    ensures
        has_part(
            linucb_summary(m, models),
            "LinUCB scheduler summary  ("@ + decimal(m.total_selections)
                + " total selections over "@ + decimal(nonzero(m.total_counts)) + " arms)\n"@,
        ),
{
    let text = linucb_summary(m, models);
    let first = "LinUCB scheduler summary  ("@ + decimal(m.total_selections)
        + " total selections over "@ + decimal(nonzero(m.total_counts)) + " arms)\n"@;
    let totals = path_totals_text(m, models, m.total_counts.len());
    let rest = if m.snapshots.len() == 0 {
        Seq::<char>::empty()
    } else {
        "  Per-second breakdown:\n"@ + lines_text(m.snapshots)
    };
    assert(text =~= Seq::empty() + first + ("  Path totals:\n"@ + totals + rest));
    lemma_part(text, Seq::empty(), first, "  Path totals:\n"@ + totals + rest);
}

proof fn lemma_summary_line(m: LinUcbModel, models: Seq<Option<ModelText>>, pid: int)
    requires
        0 <= pid < m.total_counts.len(),
        m.total_counts[pid] > 0,
    ensures
        has_part(linucb_summary(m, models), path_total_text(m, models, pid)),
{
    let text = linucb_summary(m, models);
    let totals = path_totals_text(m, models, m.total_counts.len());
    lemma_total_line(m, models, m.total_counts.len(), pid);
    let open = "LinUCB scheduler summary  ("@ + decimal(m.total_selections)
        + " total selections over "@ + decimal(nonzero(m.total_counts)) + " arms)\n"@
        + "  Path totals:\n"@;
    let rest = if m.snapshots.len() == 0 {
        Seq::<char>::empty()
    } else {
        "  Per-second breakdown:\n"@ + lines_text(m.snapshots)
    };
    assert(text =~= open + totals + rest);
    lemma_part(text, open, totals, rest);
    lemma_part_of_part(text, totals, path_total_text(m, models, pid));
}

/// The summary shows of every path that was selected what its model estimates and its
/// exploration bonus, with the number of its selections; a path without a model has
/// neither.
pub proof fn summary_shows_every_model(m: LinUcbModel, models: Seq<Option<ModelText>>, pid: int)
    requires
        0 <= pid < m.total_counts.len(),
        m.total_counts[pid] > 0,
    ensures
        pid < models.len() && models[pid] is Some ==> has_part(
            linucb_summary(m, models),
            models[pid].unwrap().estimate@ + "  explore_bonus="@ + models[pid].unwrap().bonus@
                + " (n="@ + decimal(m.total_counts[pid] as nat) + ")"@,
        ),
        pid >= models.len() || models[pid] is None ==> has_part(
            linucb_summary(m, models),
            "n/a"@ + "  explore_bonus="@ + "n/a"@,
        ),
{
    let line = path_total_text(m, models, pid);
    lemma_summary_line(m, models, pid);
    let n = m.total_counts[pid] as nat;
    let model = if pid < models.len() && models[pid] is Some {
        models[pid].unwrap().estimate@ + "  explore_bonus="@ + models[pid].unwrap().bonus@ + " (n="@
            + decimal(n) + ")"@
    } else {
        "n/a"@ + "  explore_bonus="@ + "n/a"@
    };
    let head = "    path["@ + decimal(pid as nat) + "] "@ + addr_or_unknown(m.path_addrs, pid)
        + "  selections="@ + decimal(n) + " ("@ + decimal((n * 100) / m.total_selections)
        + "%)  est(neutral)="@;
    assert(line == head + model + "\n"@);
    lemma_part(line, head, model, "\n"@);
    lemma_part_of_part(linucb_summary(m, models), line, model);
}

proof fn lemma_line_in(lines: Seq<Seq<char>>, i: int)
    requires
        0 <= i < lines.len(),
    ensures
        has_part(lines_text(lines), lines[i] + "\n"@),
    decreases lines.len(),
{
    let front = lines.drop_last();
    if i < front.len() {
        lemma_line_in(front, i);
        assert(front[i] == lines[i]);
        lemma_appended(lines_text(front), lines.last() + "\n"@, lines[i] + "\n"@);
    } else {
        lemma_appended_last(lines_text(front), lines[i] + "\n"@);
    }
}

/// The summary shows the line of every recorded second.
pub proof fn summary_shows_every_second(m: LinUcbModel, models: Seq<Option<ModelText>>, i: int)
    requires
        0 <= i < m.snapshots.len(),
    ensures
        has_part(linucb_summary(m, models), m.snapshots[i] + "\n"@),
{
    lemma_line_in(m.snapshots, i);
    let head = "LinUCB scheduler summary  ("@ + decimal(m.total_selections)
        + " total selections over "@ + decimal(nonzero(m.total_counts)) + " arms)\n"@
        + "  Path totals:\n"@ + path_totals_text(m, models, m.total_counts.len())
        + "  Per-second breakdown:\n"@;
    assert(linucb_summary(m, models) == head + lines_text(m.snapshots));
    lemma_appended_last(head, lines_text(m.snapshots));
    lemma_part_of_part(
        linucb_summary(m, models),
        lines_text(m.snapshots),
        m.snapshots[i] + "\n"@,
    );
}

/// How many paths the summary counts: those that were selected at all.
pub proof fn summary_counts_selected_paths(counts: Seq<u64>, x: u64)
    ensures
        nonzero(counts.push(x)) == nonzero(counts) + (if x > 0 {
            1int
        } else {
            0
        }),
        nonzero(Seq::<u64>::empty()) == 0,
{
    assert(counts.push(x).drop_last() =~= counts);
}

/// The line that a recorded decision adds to the summary is that of its second: the
/// counts of the window, the decision included.
pub proof fn snapshot_is_of_the_window(
    m: LinUcbModel,
    plan: SelectPlan,
    b: int,
    paths: Seq<Path>,
    now: u64,
)
    requires
        plan.wf(),
        0 <= b < plan.stats@.len(),
        m.last_log matches Some(t) ==> now - t >= 1_000_000_000,
        at(m.window_counts, plan.stats@[b].pid as int, 0) < u64::MAX,
        now >= m.start_time,
    ensures
        ({
            let n = selected(m, plan, b, paths, now);
            exists|counts: Seq<u64>|
                {
                    &&& n.snapshots == m.snapshots.push(
                        #[trigger] snapshot_text(
                            ((now - m.start_time) / 1_000_000_000) as nat,
                            counts,
                            n.path_addrs,
                            m.window_total + 1,
                        ),
                    )
                    &&& forall|pid: int|
                        0 <= pid ==> #[trigger] at(counts, pid, 0) == at(m.window_counts, pid, 0)
                            + (if pid == plan.stats@[b].pid {
                            1int
                        } else {
                            0
                        })
                }
        }),
{
    let w = crate::scheduler_linucb::counted(m, plan, b, paths, now);
    let n = selected(m, plan, b, paths, now);
    assert(n.snapshots == m.snapshots.push(
        snapshot_text(
            ((now - m.start_time) / 1_000_000_000) as nat,
            w.window_counts,
            n.path_addrs,
            m.window_total + 1,
        ),
    ));
}

// ───────────────────────────── epsilon-greedy ─────────────────────────────

proof fn lemma_arm_line(
    arms: Seq<Option<ArmState>>,
    cells: Seq<ArmCells>,
    n: nat,
    pid: int,
    a: ArmState,
)
    requires
        n <= arms.len() == cells.len(),
        0 <= pid < n,
        arms[pid] == Some(a),
        a.samples > 0,
    ensures
        has_part(arms_text(arms, cells, n), arm_text(pid as nat, a, cells[pid])),
    decreases n,
{
    let none = Seq::<char>::empty();
    let all = arms_text(arms, cells, n);
    let before = arms_text(arms, cells, (n - 1) as nat);
    let line = arm_text(pid as nat, a, cells[pid]);
    if pid < n - 1 {
        lemma_arm_line(arms, cells, (n - 1) as nat, pid, a);
        if arms[n - 1] is Some && arms[n - 1].unwrap().samples > 0 {
            let last = arm_text((n - 1) as nat, arms[n - 1].unwrap(), cells[n - 1]);
            lemma_appended(before, last, line);
        }
    } else {
        lemma_appended_last(before, line);
    }
}

proof fn lemma_appended(before: Seq<char>, last: Seq<char>, part: Seq<char>)
    requires
        has_part(before, part),
    ensures
        has_part(before + last, part),
{
    let (a, b) = choose|a: Seq<char>, b: Seq<char>| before == #[trigger] between(a, part, b);
    assert(before + last =~= between(a, part, b + last));
}

proof fn lemma_appended_last(before: Seq<char>, last: Seq<char>)
    ensures
        has_part(before + last, last),
{
    assert(before + last =~= between(before, last, Seq::empty()));
}

/// The line of a trained path in the summary shows its updates, its selections and its
/// pending decisions, each behind its own word, then its smoothed loss and its weights.
pub proof fn summary_shows_every_arm(
    arms: Seq<Option<ArmState>>,
    cells: Seq<ArmCells>,
    n: nat,
    pid: int,
    a: ArmState,
)
    requires
        n <= arms.len() == cells.len(),
        0 <= pid < n,
        arms[pid] == Some(a),
        a.samples > 0,
    ensures
        has_part(
            arms_text(arms, cells, n),
            "path["@ + decimal(pid as nat) + "] updates="@ + decimal(a.samples as nat)
                + " selections="@ + decimal(a.selections as nat) + " pending="@ + decimal(
                a.pending_decisions as nat,
            ) + " loss_ewma="@ + cells[pid].loss_ewma@ + " theta=["@ + cells[pid].theta@ + "]\n"@,
        ),
{
    let line = arm_text(pid as nat, a, cells[pid]);
    let part = "path["@ + decimal(pid as nat) + "] updates="@ + decimal(a.samples as nat)
        + " selections="@ + decimal(a.selections as nat) + " pending="@ + decimal(
        a.pending_decisions as nat,
    ) + " loss_ewma="@ + cells[pid].loss_ewma@ + " theta=["@ + cells[pid].theta@ + "]\n"@;
    reveal_strlit("  path[");
    reveal_strlit("path[");
    reveal_strlit("  ");
    assert("  path["@ =~= "  "@ + "path["@);
    assert(line =~= "  "@ + part);
    lemma_appended_last("  "@, part);
    lemma_arm_line(arms, cells, n, pid, a);
    lemma_part_of_part(arms_text(arms, cells, n), line, part);
}

} // verus!
