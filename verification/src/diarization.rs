//! Speaker relabelling after diarization.
//!
//! Live capture tags each transcript row with its channel: "mic" (the local
//! user), "system" (all remote participants mixed on one channel), "mixed"
//! (overlapping speech) or nothing (imported files). Diarization then yields
//! speaker turns, each attributed to a cluster. This module decides which
//! rows get the finer labels "system:N" (or "speaker:N" for meetings without
//! channel information).
//!
//! Times are milliseconds on the recording timeline.

use vstd::prelude::*;
use crate::fraction::fraction_le;
use crate::text::{decimal, push_char, push_decimal, str_eq};

verus! {

/// A diarized speaker turn on the recording timeline.
#[derive(Clone, Copy, Debug)]
pub struct SpeakerTurn {
    pub start: u32,
    pub end: u32,
    pub speaker: i32,
}

/// One transcript row: its id, its time window (when known) and its
/// current speaker label.
#[derive(Clone, Debug)]
pub struct TranscriptRow {
    pub id: String,
    pub start: Option<u32>,
    pub end: Option<u32>,
    pub speaker: Option<String>,
}

/// Progress report of a diarization job.
#[derive(Clone, Debug)]
pub struct DiarizationProgress {
    pub meeting_id: String,
    pub stage: String,
    pub progress_percentage: u32,
    pub message: String,
}

/// Outcome of a diarization job.
#[derive(Clone, Debug)]
pub struct DiarizationResult {
    pub meeting_id: String,
    pub num_speakers: usize,
    pub segments_updated: usize,
}

// ---------------------------------------------------------------------------
// Specification
// ---------------------------------------------------------------------------

/// Length of the intersection of two time ranges (0 when disjoint).
pub open spec fn spec_overlap(a_start: int, a_end: int, b_start: int, b_end: int) -> int {
    let lo = if a_start >= b_start { a_start } else { b_start };
    let hi = if a_end <= b_end { a_end } else { b_end };
    if hi - lo > 0 { hi - lo } else { 0 }
}

/// The row carries the given label.
pub open spec fn has_label(speaker: Option<String>, label: Seq<char>) -> bool {
    speaker matches Some(s) && s@ == label
}

pub open spec fn is_mic_row(r: TranscriptRow) -> bool {
    has_label(r.speaker, "mic"@)
}

/// Some row was captured on the microphone channel.
pub open spec fn has_mic(rows: Seq<TranscriptRow>) -> bool {
    exists|i: int| 0 <= i < rows.len() && is_mic_row(#[trigger] rows[i])
}

/// Overlap of a turn with a row, counted only for timed microphone rows.
pub open spec fn mic_window_overlap(r: TranscriptRow, t: SpeakerTurn) -> int {
    if is_mic_row(r) && r.start is Some && r.end is Some {
        spec_overlap(t.start as int, t.end as int, r.start->0 as int, r.end->0 as int)
    } else {
        0
    }
}

/// Time a turn shares with all microphone rows.
pub open spec fn turn_mic_overlap(rows: Seq<TranscriptRow>, t: SpeakerTurn) -> int
    decreases rows.len(),
{
    if rows.len() == 0 {
        0
    } else {
        turn_mic_overlap(rows.drop_last(), t) + mic_window_overlap(rows.last(), t)
    }
}

/// Total speaking time (end minus start, summed) of cluster `c`.
pub open spec fn cluster_total(turns: Seq<SpeakerTurn>, c: int) -> int
    decreases turns.len(),
{
    if turns.len() == 0 {
        0
    } else {
        cluster_total(turns.drop_last(), c) + if turns.last().speaker == c {
            turns.last().end - turns.last().start
        } else {
            0
        }
    }
}

/// Time cluster `c` spends inside microphone rows.
pub open spec fn cluster_mic_overlap(rows: Seq<TranscriptRow>, turns: Seq<SpeakerTurn>, c: int) -> int
    decreases turns.len(),
{
    if turns.len() == 0 {
        0
    } else {
        cluster_mic_overlap(rows, turns.drop_last(), c) + if turns.last().speaker == c {
            turn_mic_overlap(rows, turns.last())
        } else {
            0
        }
    }
}

/// Time cluster `c` shares with the window `[s, e]`.
pub open spec fn window_cluster_overlap(turns: Seq<SpeakerTurn>, c: int, s: int, e: int) -> int
    decreases turns.len(),
{
    if turns.len() == 0 {
        0
    } else {
        window_cluster_overlap(turns.drop_last(), c, s, e) + if turns.last().speaker == c {
            spec_overlap(turns.last().start as int, turns.last().end as int, s, e)
        } else {
            0
        }
    }
}

/// Cluster `c` is a candidate for the local user: it has speaking time and
/// spends more than half of it inside microphone rows.
pub open spec fn you_candidate(rows: Seq<TranscriptRow>, turns: Seq<SpeakerTurn>, c: int) -> bool {
    &&& has_mic(rows)
    &&& c >= 0
    &&& cluster_total(turns, c) > 0
    &&& 2 * cluster_mic_overlap(rows, turns, c) > cluster_total(turns, c)
}

/// The microphone share of `c1` is at most that of `c2`.
pub open spec fn share_le(rows: Seq<TranscriptRow>, turns: Seq<SpeakerTurn>, c1: int, c2: int) -> bool {
    cluster_mic_overlap(rows, turns, c1) * cluster_total(turns, c2) <= cluster_mic_overlap(
        rows,
        turns,
        c2,
    ) * cluster_total(turns, c1)
}

/// `c` is the local user's cluster: the candidate with the largest
/// microphone share, the highest-numbered one among equal shares.
pub open spec fn is_you_cluster(rows: Seq<TranscriptRow>, turns: Seq<SpeakerTurn>, c: int) -> bool {
    &&& you_candidate(rows, turns, c)
    &&& forall|c2: int|
        #![trigger you_candidate(rows, turns, c2)]
        you_candidate(rows, turns, c2) ==> share_le(rows, turns, c2, c) && (c2 > c ==> !share_le(
            rows,
            turns,
            c,
            c2,
        ))
}

pub open spec fn you_cluster(rows: Seq<TranscriptRow>, turns: Seq<SpeakerTurn>) -> Option<int> {
    if exists|c: int| is_you_cluster(rows, turns, c) {
        Some(choose|c: int| is_you_cluster(rows, turns, c))
    } else {
        None
    }
}

/// Clusters other than the local user's, in order of first appearance.
pub open spec fn speaker_order(turns: Seq<SpeakerTurn>, you: Option<int>) -> Seq<int>
    decreases turns.len(),
{
    if turns.len() == 0 {
        seq![]
    } else {
        let prev = speaker_order(turns.drop_last(), you);
        let c = turns.last().speaker as int;
        if you == Some(c) || prev.contains(c) {
            prev
        } else {
            prev.push(c)
        }
    }
}

/// Position of the first occurrence of `x` in `s`, or -1.
pub open spec fn first_index(s: Seq<int>, x: int) -> int
    decreases s.len(),
{
    if s.len() == 0 {
        -1
    } else if s[0] == x {
        0
    } else {
        let k = first_index(s.drop_first(), x);
        if k < 0 { -1 } else { k + 1 }
    }
}

/// `c` is the dominant cluster of the window `[s, e]`: it overlaps the
/// window, no cluster overlaps it more, and later clusters overlap it less.
pub open spec fn is_dominant(turns: Seq<SpeakerTurn>, s: int, e: int, c: int) -> bool {
    &&& c >= 0
    &&& window_cluster_overlap(turns, c, s, e) > 0
    &&& forall|c2: int|
        #![trigger window_cluster_overlap(turns, c2, s, e)]
        c2 >= 0 ==> window_cluster_overlap(turns, c2, s, e) <= window_cluster_overlap(turns, c, s, e)
            && (c2 > c ==> window_cluster_overlap(turns, c2, s, e) < window_cluster_overlap(
            turns,
            c,
            s,
            e,
        ))
}

pub open spec fn dominant_cluster(turns: Seq<SpeakerTurn>, s: int, e: int) -> Option<int> {
    if exists|c: int| is_dominant(turns, s, e, c) {
        Some(choose|c: int| is_dominant(turns, s, e, c))
    } else {
        None
    }
}

/// The label given to the remote speaker numbered `n`.
pub open spec fn speaker_label(has_mic_rows: bool, n: nat) -> Seq<char> {
    (if has_mic_rows { "system"@ } else { "speaker"@ }) + ":"@ + decimal(n)
}

/// The new label of one row, when it changes.
pub open spec fn row_update(rows: Seq<TranscriptRow>, turns: Seq<SpeakerTurn>, r: TranscriptRow) -> Option<
    (Seq<char>, Seq<char>),
> {
    if has_label(r.speaker, "mic"@) || has_label(r.speaker, "mixed"@) {
        None
    } else if r.start is None || r.end is None {
        None
    } else {
        match dominant_cluster(turns, r.start->0 as int, r.end->0 as int) {
            None => None,
            Some(d) => {
                let you = you_cluster(rows, turns);
                let order = speaker_order(turns, you);
                if you == Some(d) || !order.contains(d) {
                    None
                } else {
                    let label = speaker_label(has_mic(rows), (first_index(order, d) + 1) as nat);
                    if has_label(r.speaker, label) {
                        None
                    } else {
                        Some((r.id@, label))
                    }
                }
            },
        }
    }
}

/// Label changes for the rows of `prefix`, in row order.
pub open spec fn updates_of(rows: Seq<TranscriptRow>, turns: Seq<SpeakerTurn>, prefix: Seq<TranscriptRow>) -> Seq<
    (Seq<char>, Seq<char>),
>
    decreases prefix.len(),
{
    if prefix.len() == 0 {
        seq![]
    } else {
        let prev = updates_of(rows, turns, prefix.drop_last());
        match row_update(rows, turns, prefix.last()) {
            Some(u) => prev.push(u),
            None => prev,
        }
    }
}

/// Number of distinct remote speakers found.
pub open spec fn remote_speaker_count(rows: Seq<TranscriptRow>, turns: Seq<SpeakerTurn>) -> nat {
    if turns.len() == 0 {
        0
    } else {
        speaker_order(turns, you_cluster(rows, turns)).len()
    }
}

/// The label changes decided for `rows`: none unless at least two remote
/// speakers were found.
pub open spec fn relabel_updates(rows: Seq<TranscriptRow>, turns: Seq<SpeakerTurn>) -> Seq<
    (Seq<char>, Seq<char>),
> {
    if remote_speaker_count(rows, turns) < 2 {
        seq![]
    } else {
        updates_of(rows, turns, rows)
    }
}

pub open spec fn pair_view(p: (String, String)) -> (Seq<char>, Seq<char>) {
    (p.0@, p.1@)
}

pub open spec fn speakers_valid(turns: Seq<SpeakerTurn>) -> bool {
    forall|i: int| 0 <= i < turns.len() ==> #[trigger] turns[i].speaker >= 0
}

// ---------------------------------------------------------------------------
// Lemmas
// ---------------------------------------------------------------------------

proof fn lemma_overlap_bound(a_start: u32, a_end: u32, b_start: u32, b_end: u32)
    ensures
        0 <= spec_overlap(a_start as int, a_end as int, b_start as int, b_end as int) < 0x1_0000_0000,
{
}

proof fn lemma_turn_mic_bound(rows: Seq<TranscriptRow>, t: SpeakerTurn)
    ensures
        0 <= turn_mic_overlap(rows, t) <= rows.len() * 0x1_0000_0000,
    decreases rows.len(),
{
    if rows.len() > 0 {
        lemma_turn_mic_bound(rows.drop_last(), t);
        let r = rows.last();
        if is_mic_row(r) && r.start is Some && r.end is Some {
            lemma_overlap_bound(t.start, t.end, r.start->0, r.end->0);
        }
    }
}

proof fn lemma_mul_step(n: int, k: int)
    requires
        n >= 1,
    ensures
        (n - 1) * k + k == n * k,
{
    assert((n - 1) * k + k == n * k) by (nonlinear_arith);
}

proof fn lemma_cluster_mic_bound(rows: Seq<TranscriptRow>, turns: Seq<SpeakerTurn>, c: int)
    ensures
        0 <= cluster_mic_overlap(rows, turns, c) <= turns.len() * (rows.len() * 0x1_0000_0000),
    decreases turns.len(),
{
    if turns.len() > 0 {
        lemma_cluster_mic_bound(rows, turns.drop_last(), c);
        lemma_turn_mic_bound(rows, turns.last());
        lemma_mul_step(turns.len() as int, (rows.len() * 0x1_0000_0000) as int);
    }
}

proof fn lemma_cluster_total_bound(turns: Seq<SpeakerTurn>, c: int)
    ensures
        -(turns.len() * 0x1_0000_0000) <= cluster_total(turns, c) <= turns.len() * 0x1_0000_0000,
    decreases turns.len(),
{
    if turns.len() > 0 {
        lemma_cluster_total_bound(turns.drop_last(), c);
    }
}

proof fn lemma_window_bound(turns: Seq<SpeakerTurn>, c: int, s: u32, e: u32)
    ensures
        0 <= window_cluster_overlap(turns, c, s as int, e as int) <= turns.len() * 0x1_0000_0000,
    decreases turns.len(),
{
    if turns.len() > 0 {
        lemma_window_bound(turns.drop_last(), c, s, e);
        lemma_overlap_bound(turns.last().start, turns.last().end, s, e);
    }
}

/// A cluster without turns has no speaking time and no overlap.
proof fn lemma_absent_cluster(rows: Seq<TranscriptRow>, turns: Seq<SpeakerTurn>, c: int, s: int, e: int)
    requires
        forall|i: int| 0 <= i < turns.len() ==> #[trigger] turns[i].speaker != c,
    ensures
        cluster_total(turns, c) == 0,
        cluster_mic_overlap(rows, turns, c) == 0,
        window_cluster_overlap(turns, c, s, e) == 0,
    decreases turns.len(),
{
    if turns.len() > 0 {
        assert(turns.last().speaker != c);
        assert forall|i: int| 0 <= i < turns.drop_last().len() implies #[trigger] turns.drop_last()[i].speaker != c by {
            assert(turns.drop_last()[i] == turns[i]);
        }
        lemma_absent_cluster(rows, turns.drop_last(), c, s, e);
    }
}

proof fn lemma_share_trans(m1: int, t1: int, m2: int, t2: int, m3: int, t3: int)
    requires
        t1 > 0,
        t2 > 0,
        t3 > 0,
        m1 * t2 <= m2 * t1,
        m2 * t3 <= m3 * t2,
    ensures
        m1 * t3 <= m3 * t1,
{
    assert(m1 * t2 * t3 <= m2 * t1 * t3) by (nonlinear_arith)
        requires
            m1 * t2 <= m2 * t1,
            t3 > 0,
    ;
    assert(m2 * t3 * t1 <= m3 * t2 * t1) by (nonlinear_arith)
        requires
            m2 * t3 <= m3 * t2,
            t1 > 0,
    ;
    assert(t2 * (m1 * t3) <= t2 * (m3 * t1)) by (nonlinear_arith)
        requires
            m1 * t2 * t3 <= m2 * t1 * t3,
            m2 * t3 * t1 <= m3 * t2 * t1,
    ;
    assert(m1 * t3 <= m3 * t1) by (nonlinear_arith)
        requires
            t2 * (m1 * t3) <= t2 * (m3 * t1),
            t2 > 0,
    ;
}

proof fn lemma_you_unique(rows: Seq<TranscriptRow>, turns: Seq<SpeakerTurn>, a: int, b: int)
    requires
        is_you_cluster(rows, turns, a),
        is_you_cluster(rows, turns, b),
    ensures
        a == b,
{
    assert(you_candidate(rows, turns, a));
    assert(you_candidate(rows, turns, b));
}

proof fn lemma_dominant_unique(turns: Seq<SpeakerTurn>, s: int, e: int, a: int, b: int)
    requires
        is_dominant(turns, s, e, a),
        is_dominant(turns, s, e, b),
    ensures
        a == b,
{
    assert(window_cluster_overlap(turns, a, s, e) <= window_cluster_overlap(turns, b, s, e));
    assert(window_cluster_overlap(turns, b, s, e) <= window_cluster_overlap(turns, a, s, e));
}

proof fn lemma_first_index(s: Seq<int>, x: int)
    ensures
        (first_index(s, x) >= 0) == s.contains(x),
        first_index(s, x) >= 0 ==> first_index(s, x) < s.len() && s[first_index(s, x)] == x,
    decreases s.len(),
{
    if s.len() > 0 {
        lemma_first_index(s.drop_first(), x);
        if s[0] != x {
            if s.contains(x) {
                let k = choose|k: int| 0 <= k < s.len() && s[k] == x;
                assert(s.drop_first()[k - 1] == x);
            }
            if s.drop_first().contains(x) {
                let k = choose|k: int| 0 <= k < s.drop_first().len() && s.drop_first()[k] == x;
                assert(s[k + 1] == x);
            }
        } else {
            assert(s[0] == x);
        }
    }
}

proof fn lemma_first_index_push(s: Seq<int>, y: int, x: int)
    ensures
        first_index(s.push(y), x) == if s.contains(x) {
            first_index(s, x)
        } else if y == x {
            s.len() as int
        } else {
            -1
        },
    decreases s.len(),
{
    lemma_first_index(s, x);
    if s.len() == 0 {
        assert(s.push(y)[0] == y);
        assert(s.push(y).drop_first() =~= seq![]);
        assert(first_index(s.push(y).drop_first(), x) == -1);
        assert(!s.contains(x));
    } else {
        assert(s.push(y).drop_first() =~= s.drop_first().push(y));
        lemma_first_index_push(s.drop_first(), y, x);
        lemma_first_index(s.drop_first(), x);
        if s[0] != x {
            if s.contains(x) {
                let k = choose|k: int| 0 <= k < s.len() && s[k] == x;
                assert(s.drop_first()[k - 1] == x);
            }
            if s.drop_first().contains(x) {
                let k = choose|k: int| 0 <= k < s.drop_first().len() && s.drop_first()[k] == x;
                assert(s[k + 1] == x);
            }
        }
    }
}

proof fn lemma_speaker_order_len(turns: Seq<SpeakerTurn>, you: Option<int>)
    ensures
        speaker_order(turns, you).len() <= turns.len(),
    decreases turns.len(),
{
    if turns.len() > 0 {
        lemma_speaker_order_len(turns.drop_last(), you);
    }
}

// ---------------------------------------------------------------------------
// Laws
// ---------------------------------------------------------------------------

/// The remote speakers are numbered once each: a cluster gets a number
/// exactly when some turn belongs to it and it is not the local user's,
/// and no cluster appears twice in the numbering.
pub proof fn law_remote_speakers_numbered_once(turns: Seq<SpeakerTurn>, you: Option<int>)
    ensures
        forall|c: int|
            #![trigger speaker_order(turns, you).contains(c)]
            speaker_order(turns, you).contains(c) <==> (you != Some(c) && exists|i: int|
                0 <= i < turns.len() && turns[i].speaker == c),
        forall|i: int, j: int|
            0 <= i < j < speaker_order(turns, you).len() ==> speaker_order(turns, you)[i]
                != speaker_order(turns, you)[j],
    decreases turns.len(),
{
    if turns.len() > 0 {
        let prev_turns = turns.drop_last();
        law_remote_speakers_numbered_once(prev_turns, you);
        let prev = speaker_order(prev_turns, you);
        let c = turns.last().speaker as int;
        assert forall|x: int|
            #![trigger speaker_order(turns, you).contains(x)]
            speaker_order(turns, you).contains(x) <==> (you != Some(x) && exists|i: int|
                0 <= i < turns.len() && turns[i].speaker == x) by {
            if you != Some(x) && exists|i: int| 0 <= i < turns.len() && turns[i].speaker == x {
                let i = choose|i: int| 0 <= i < turns.len() && turns[i].speaker == x;
                if i < turns.len() - 1 {
                    assert(prev_turns[i].speaker == x);
                    assert(prev.contains(x));
                    if !(you == Some(c) || prev.contains(c)) {
                        let k = choose|k: int| 0 <= k < prev.len() && prev[k] == x;
                        assert(prev.push(c)[k] == x);
                    }
                } else {
                    if !(you == Some(c) || prev.contains(c)) {
                        assert(prev.push(c)[prev.len() as int] == x);
                    }
                }
            }
            if speaker_order(turns, you).contains(x) {
                let k = choose|k: int|
                    0 <= k < speaker_order(turns, you).len() && speaker_order(turns, you)[k] == x;
                if !(you == Some(c) || prev.contains(c)) && k == prev.len() {
                    assert(turns[turns.len() - 1].speaker == x);
                } else {
                    assert(prev[k] == x);
                    assert(prev.contains(x));
                    let i = choose|i: int| 0 <= i < prev_turns.len() && prev_turns[i].speaker == x;
                    assert(turns[i].speaker == x);
                }
            }
        }
    }
}

proof fn lemma_no_turns_no_overlap(turns: Seq<SpeakerTurn>, c: int, s: int, e: int)
    requires
        turns.len() == 0,
    ensures
        window_cluster_overlap(turns, c, s, e) == 0,
{
}

/// Shape of one row's update: it names the row, the row is timed and not a
/// microphone or mixed row, and its label is a remote speaker's label it
/// does not carry yet.
proof fn lemma_row_update_shape(rows: Seq<TranscriptRow>, turns: Seq<SpeakerTurn>, r: TranscriptRow)
    requires
        row_update(rows, turns, r) is Some,
    ensures
        ({
            let u = row_update(rows, turns, r)->0;
            &&& u.0 == r.id@
            &&& !has_label(r.speaker, "mic"@)
            &&& !has_label(r.speaker, "mixed"@)
            &&& r.start is Some && r.end is Some
            &&& !has_label(r.speaker, u.1)
            &&& turns.len() > 0
            &&& exists|n: nat|
                1 <= n <= remote_speaker_count(rows, turns) && u.1 == speaker_label(has_mic(rows), n)
        }),
{
    let d = dominant_cluster(turns, r.start->0 as int, r.end->0 as int)->0;
    let order = speaker_order(turns, you_cluster(rows, turns));
    lemma_first_index(order, d);
    if turns.len() == 0 {
        let s = r.start->0 as int;
        let e = r.end->0 as int;
        assert(is_dominant(turns, s, e, d));
        lemma_no_turns_no_overlap(turns, d, s, e);
    }
    let n = (first_index(order, d) + 1) as nat;
    assert(1 <= n <= remote_speaker_count(rows, turns));
}

proof fn lemma_updates_of_origin(
    rows: Seq<TranscriptRow>,
    turns: Seq<SpeakerTurn>,
    p: Seq<TranscriptRow>,
    k: int,
)
    requires
        0 <= k < updates_of(rows, turns, p).len(),
    ensures
        exists|i: int|
            0 <= i < p.len() && row_update(rows, turns, #[trigger] p[i]) == Some(
                updates_of(rows, turns, p)[k],
            ),
    decreases p.len(),
{
    let prev = updates_of(rows, turns, p.drop_last());
    if k < prev.len() {
        lemma_updates_of_origin(rows, turns, p.drop_last(), k);
        let i = choose|i: int|
            0 <= i < p.drop_last().len() && row_update(rows, turns, #[trigger] p.drop_last()[i])
                == Some(prev[k]);
        assert(p[i] == p.drop_last()[i]);
    } else {
        assert(row_update(rows, turns, p[p.len() - 1]) == Some(updates_of(rows, turns, p)[k]));
    }
}

/// Every label change concerns a timed row that is neither a microphone
/// row nor a mixed row (live channel attribution stays authoritative for
/// those), gives it a label it does not carry yet, and that label is
/// "system:N" (or "speaker:N" when no row came from the microphone) for a
/// remote speaker number N between 1 and the number of remote speakers.
pub proof fn law_updates_relabel_remote_rows(
    rows: Seq<TranscriptRow>,
    turns: Seq<SpeakerTurn>,
    k: int,
)
    requires
        0 <= k < relabel_updates(rows, turns).len(),
    ensures
        remote_speaker_count(rows, turns) >= 2,
        exists|i: int|
            #![trigger rows[i]]
            0 <= i < rows.len() && {
                let r = rows[i];
                let u = relabel_updates(rows, turns)[k];
                &&& u.0 == r.id@
                &&& !has_label(r.speaker, "mic"@)
                &&& !has_label(r.speaker, "mixed"@)
                &&& r.start is Some && r.end is Some
                &&& !has_label(r.speaker, u.1)
                &&& exists|n: nat|
                    1 <= n <= remote_speaker_count(rows, turns) && u.1 == speaker_label(
                        has_mic(rows),
                        n,
                    )
            },
{
    lemma_updates_of_origin(rows, turns, rows, k);
    let i = choose|i: int|
        0 <= i < rows.len() && row_update(rows, turns, #[trigger] rows[i]) == Some(
            updates_of(rows, turns, rows)[k],
        );
    lemma_row_update_shape(rows, turns, rows[i]);
}

/// A row dominated by the local user's cluster (bleed or echo of the user
/// on the system channel), or overlapped by no diarized speech at all, keeps
/// its label.
pub proof fn law_local_user_and_silent_rows_keep_labels(
    rows: Seq<TranscriptRow>,
    turns: Seq<SpeakerTurn>,
    r: TranscriptRow,
)
    requires
        r.start is Some,
        r.end is Some,
        ({
            let d = dominant_cluster(turns, r.start->0 as int, r.end->0 as int);
            d is None || d == you_cluster(rows, turns)
        }),
    ensures
        row_update(rows, turns, r) is None,
{
}

/// With fewer than two remote speakers the channel labels are already as
/// good as diarization can make them: nothing changes.
pub proof fn law_fewer_than_two_speakers_change_nothing(
    rows: Seq<TranscriptRow>,
    turns: Seq<SpeakerTurn>,
)
    requires
        remote_speaker_count(rows, turns) < 2,
    ensures
        relabel_updates(rows, turns) == Seq::<(Seq<char>, Seq<char>)>::empty(),
{
}

// ---------------------------------------------------------------------------
// Executable code
// ---------------------------------------------------------------------------

/// Overlap in milliseconds between two time ranges.
pub fn overlap(a_start: u32, a_end: u32, b_start: u32, b_end: u32) -> (r: u32)
    ensures
        r == spec_overlap(a_start as int, a_end as int, b_start as int, b_end as int),
{
    let lo = if a_start >= b_start { a_start } else { b_start };
    let hi = if a_end <= b_end { a_end } else { b_end };
    if hi > lo { hi - lo } else { 0 }
}

/// Whether `speaker` is `Some(label)`.
fn label_is(speaker: &Option<String>, label: &str) -> (r: bool)
    ensures
        r == has_label(*speaker, label@),
{
    match speaker {
        Some(s) => str_eq(s.as_str(), label),
        None => false,
    }
}

/// Time `t` shares with the microphone rows.
fn turn_mic(rows: &Vec<TranscriptRow>, t: SpeakerTurn) -> (r: u128)
    ensures
        r == turn_mic_overlap(rows@, t),
{
    let mut acc: u128 = 0;
    let mut j: usize = 0;
    while j < rows.len()
        invariant
            j <= rows.len(),
            acc == turn_mic_overlap(rows@.take(j as int), t),
        decreases rows.len() - j,
    {
        let r = &rows[j];
        proof {
            assert(rows@.take(j + 1).drop_last() =~= rows@.take(j as int));
            lemma_turn_mic_bound(rows@.take(j as int), t);
            lemma_overlap_bound(t.start, t.end, 0, 0);
        }
        if label_is(&r.speaker, "mic") {
            match (r.start, r.end) {
                (Some(s), Some(e)) => {
                    let o = overlap(t.start, t.end, s, e);
                    proof {
                        assert(j * 0x1_0000_0000 <= 0xffff_ffff_ffff_ffff * 0x1_0000_0000int) by (nonlinear_arith)
                            requires
                                j <= 0xffff_ffff_ffff_ffff,
                        ;
                    }
                    acc = acc + o as u128;
                },
                _ => {},
            }
        }
        j += 1;
    }
    assert(rows@.take(rows.len() as int) =~= rows@);
    acc
}

/// Per-cluster speaking time and microphone overlap, for clusters `0..=maxc`.
#[verifier::spinoff_prover]
fn cluster_statistics(rows: &Vec<TranscriptRow>, turns: &Vec<SpeakerTurn>, maxc: usize) -> (r: (
    Vec<i128>,
    Vec<u128>,
))
    requires
        maxc < 0x8000_0000,
        forall|i: int| 0 <= i < turns.len() ==> 0 <= #[trigger] turns@[i].speaker <= maxc,
        rows.len() * turns.len() <= 0xffff_ffff_ffff_ffff,
    ensures
        r.0.len() == maxc + 1,
        r.1.len() == maxc + 1,
        forall|c: int|
            0 <= c <= maxc ==> #[trigger] r.0@[c] == cluster_total(turns@, c) && r.1@[c]
                == cluster_mic_overlap(rows@, turns@, c),
{
    let mut totals: Vec<i128> = vec![0i128; maxc + 1];
    let mut mics: Vec<u128> = vec![0u128; maxc + 1];
    let mut i: usize = 0;
    while i < turns.len()
        invariant
            i <= turns.len(),
            maxc < 0x8000_0000,
            forall|k: int| 0 <= k < turns.len() ==> 0 <= #[trigger] turns@[k].speaker <= maxc,
            rows.len() * turns.len() <= 0xffff_ffff_ffff_ffff,
            totals.len() == maxc + 1,
            mics.len() == maxc + 1,
            forall|c: int|
                0 <= c <= maxc ==> #[trigger] totals@[c] == cluster_total(turns@.take(i as int), c)
                    && mics@[c] == cluster_mic_overlap(rows@, turns@.take(i as int), c),
        decreases turns.len() - i,
    {
        let t = turns[i];
        let c = t.speaker as usize;
        let m = turn_mic(rows, t);
        let ghost prefix = turns@.take(i as int);
        proof {
            assert(turns@.take(i + 1).drop_last() =~= prefix);
            assert(turns@.take(i + 1).last() == t);
            lemma_cluster_total_bound(prefix, c as int);
            lemma_cluster_mic_bound(rows@, prefix, c as int);
            lemma_turn_mic_bound(rows@, t);
            let k = rows.len() * 0x1_0000_0000int;
            assert(i * k + k <= turns.len() * k) by (nonlinear_arith)
                requires
                    i < turns.len(),
                    k >= 0,
            ;
            assert(turns.len() * k <= 0xffff_ffff_ffff_ffff * 0x1_0000_0000int) by (nonlinear_arith)
                requires
                    k == rows.len() * 0x1_0000_0000int,
                    rows.len() * turns.len() <= 0xffff_ffff_ffff_ffff,
            ;
            assert(i * 0x1_0000_0000int <= 0xffff_ffff_ffff_ffff * 0x1_0000_0000int) by (nonlinear_arith)
                requires
                    i <= 0xffff_ffff_ffff_ffff,
            ;
        }
        let new_total = totals[c] + (t.end as i128 - t.start as i128);
        let new_mic = mics[c] + m;
        let ghost old_totals = totals@;
        let ghost old_mics = mics@;
        totals.set(c, new_total);
        mics.set(c, new_mic);
        i += 1;
        proof {
            assert forall|c2: int| 0 <= c2 <= maxc implies #[trigger] totals@[c2] == cluster_total(turns@.take(i as int), c2)
                && mics@[c2] == cluster_mic_overlap(rows@, turns@.take(i as int), c2) by {
                let cur = turns@.take(i as int);
                assert(cur.drop_last() =~= prefix);
                assert(cur.last() == t);
                assert(old_totals[c2] == cluster_total(prefix, c2));
                assert(old_mics[c2] == cluster_mic_overlap(rows@, prefix, c2));
                if c2 != c as int {
                    assert(totals@[c2] == old_totals[c2]);
                    assert(mics@[c2] == old_mics[c2]);
                }
            }
        }
    }
    assert(turns@.take(turns.len() as int) =~= turns@);
    assert forall|c: int| 0 <= c <= maxc implies #[trigger] totals@[c] == cluster_total(turns@, c) && mics@[c]
        == cluster_mic_overlap(rows@, turns@, c) by {
        assert(turns@.take(turns.len() as int) == turns@);
    }
    (totals, mics)
}

/// Whether some row was captured on the microphone channel.
fn any_mic_row(rows: &Vec<TranscriptRow>) -> (r: bool)
    ensures
        r == has_mic(rows@),
{
    let mut j: usize = 0;
    while j < rows.len()
        invariant
            j <= rows.len(),
            forall|k: int| 0 <= k < j ==> !is_mic_row(#[trigger] rows@[k]),
        decreases rows.len() - j,
    {
        if label_is(&rows[j].speaker, "mic") {
            assert(is_mic_row(rows@[j as int]));
            return true;
        }
        j += 1;
    }
    false
}

/// The highest cluster number among the turns.
fn max_speaker(turns: &Vec<SpeakerTurn>) -> (r: usize)
    requires
        turns.len() > 0,
        speakers_valid(turns@),
    ensures
        r < 0x8000_0000,
        forall|i: int| 0 <= i < turns.len() ==> 0 <= #[trigger] turns@[i].speaker <= r,
{
    let mut m: i32 = turns[0].speaker;
    let mut i: usize = 1;
    while i < turns.len()
        invariant
            1 <= i <= turns.len(),
            speakers_valid(turns@),
            0 <= m,
            forall|k: int| 0 <= k < i ==> #[trigger] turns@[k].speaker <= m,
        decreases turns.len() - i,
    {
        if turns[i].speaker > m {
            m = turns[i].speaker;
        }
        i += 1;
    }
    assert(forall|k: int| 0 <= k < turns.len() ==> 0 <= #[trigger] turns@[k].speaker);
    m as usize
}

/// The local user's cluster, chosen among `0..=maxc` from the statistics.
fn pick_you_cluster(
    rows: &Vec<TranscriptRow>,
    turns: &Vec<SpeakerTurn>,
    totals: &Vec<i128>,
    mics: &Vec<u128>,
    maxc: usize,
    has_mic_rows: bool,
) -> (r: Option<usize>)
    requires
        maxc < 0x8000_0000,
        forall|i: int| 0 <= i < turns.len() ==> 0 <= #[trigger] turns@[i].speaker <= maxc,
        rows.len() * turns.len() <= 0xffff_ffff_ffff_ffff,
        has_mic_rows == has_mic(rows@),
        totals.len() == maxc + 1,
        mics.len() == maxc + 1,
        forall|c: int|
            0 <= c <= maxc ==> #[trigger] totals@[c] == cluster_total(turns@, c) && mics@[c]
                == cluster_mic_overlap(rows@, turns@, c),
    ensures
        r matches Some(b) ==> b <= maxc && you_cluster(rows@, turns@) == Some(b as int),
        r is None ==> you_cluster(rows@, turns@) is None,
{
    let ghost rs = rows@;
    let ghost ts = turns@;
    let mut best: Option<usize> = None;
    if has_mic_rows {
        let mut c: usize = 0;
        while c <= maxc
            invariant
                c <= maxc + 1,
                maxc < 0x8000_0000,
                rs == rows@,
                ts == turns@,
                rows.len() * turns.len() <= 0xffff_ffff_ffff_ffff,
                has_mic(rs),
                totals.len() == maxc + 1,
                mics.len() == maxc + 1,
                forall|k: int|
                    0 <= k <= maxc ==> #[trigger] totals@[k] == cluster_total(ts, k) && mics@[k]
                        == cluster_mic_overlap(rs, ts, k),
                best matches Some(b) ==> {
                    &&& b < c
                    &&& you_candidate(rs, ts, b as int)
                    &&& forall|c2: int|
                        #![trigger you_candidate(rs, ts, c2)]
                        0 <= c2 < c && you_candidate(rs, ts, c2) ==> share_le(rs, ts, c2, b as int) && (
                        c2 > b ==> !share_le(rs, ts, b as int, c2))
                },
                best is None ==> forall|c2: int|
                    #![trigger you_candidate(rs, ts, c2)]
                    0 <= c2 < c ==> !you_candidate(rs, ts, c2),
            decreases maxc + 1 - c,
        {
            let total = totals[c];
            let mic = mics[c];
            proof {
                lemma_cluster_mic_bound(rs, ts, c as int);
                assert(turns.len() * (rows.len() * 0x1_0000_0000int) <= 0xffff_ffff_ffff_ffff
                    * 0x1_0000_0000int) by (nonlinear_arith)
                    requires
                        rows.len() * turns.len() <= 0xffff_ffff_ffff_ffff,
                ;
            }
            if total > 0 && 2 * mic > total as u128 {
                assert(you_candidate(rs, ts, c as int));
                match best {
                    None => {
                        best = Some(c);
                    },
                    Some(b) => {
                        let tb = totals[b];
                        let mb = mics[b];
                        if fraction_le(mb, tb as u128, mic, total as u128) {
                            proof {
                                assert(share_le(rs, ts, b as int, c as int));
                                assert forall|c2: int|
                                    #![trigger you_candidate(rs, ts, c2)]
                                    0 <= c2 < c + 1 && you_candidate(rs, ts, c2) implies share_le(
                                    rs,
                                    ts,
                                    c2,
                                    c as int,
                                ) by {
                                    if c2 < c {
                                        lemma_share_trans(
                                            cluster_mic_overlap(rs, ts, c2),
                                            cluster_total(ts, c2),
                                            cluster_mic_overlap(rs, ts, b as int),
                                            cluster_total(ts, b as int),
                                            cluster_mic_overlap(rs, ts, c as int),
                                            cluster_total(ts, c as int),
                                        );
                                    } else {
                                        assert(c2 == c);
                                    }
                                }
                            }
                            best = Some(c);
                        } else {
                            assert(!share_le(rs, ts, b as int, c as int));
                            assert(share_le(rs, ts, c as int, b as int));
                        }
                    },
                }
            } else {
                assert(!you_candidate(rs, ts, c as int));
            }
            c += 1;
        }
    }
    proof {
        assert forall|c2: int| c2 > maxc implies !you_candidate(rs, ts, c2) by {
            assert forall|i: int| 0 <= i < ts.len() implies #[trigger] ts[i].speaker != c2 by {}
            lemma_absent_cluster(rs, ts, c2, 0, 0);
        }
        match best {
            Some(b) => {
                assert(is_you_cluster(rs, ts, b as int));
                assert forall|c: int| is_you_cluster(rs, ts, c) implies c == b as int by {
                    lemma_you_unique(rs, ts, c, b as int);
                }
            },
            None => {
                assert forall|c: int| !is_you_cluster(rs, ts, c) by {
                    if is_you_cluster(rs, ts, c) {
                        assert(you_candidate(rs, ts, c));
                    }
                }
            },
        }
    }
    best
}

pub open spec fn opt_int(o: Option<usize>) -> Option<int> {
    match o {
        Some(v) => Some(v as int),
        None => None,
    }
}

/// Numbers `1..=N` for the clusters other than `you`, by first appearance.
fn number_speakers(turns: &Vec<SpeakerTurn>, you: Option<usize>, maxc: usize) -> (r: (
    Vec<Option<usize>>,
    usize,
))
    requires
        maxc < 0x8000_0000,
        forall|i: int| 0 <= i < turns.len() ==> 0 <= #[trigger] turns@[i].speaker <= maxc,
    ensures
        r.0.len() == maxc + 1,
        r.1 == speaker_order(turns@, opt_int(you)).len(),
        forall|c: int|
            0 <= c <= maxc ==> #[trigger] opt_int(r.0@[c]) == if speaker_order(
                turns@,
                opt_int(you),
            ).contains(c) {
                Some(first_index(speaker_order(turns@, opt_int(you)), c) + 1)
            } else {
                None
            },
{
    let ghost y = opt_int(you);
    let mut numbers: Vec<Option<usize>> = vec![None; maxc + 1];
    let mut count: usize = 0;
    let mut i: usize = 0;
    while i < turns.len()
        invariant
            i <= turns.len(),
            y == opt_int(you),
            forall|k: int| 0 <= k < turns.len() ==> 0 <= #[trigger] turns@[k].speaker <= maxc,
            numbers.len() == maxc + 1,
            count == speaker_order(turns@.take(i as int), y).len(),
            forall|c: int|
                0 <= c <= maxc ==> #[trigger] opt_int(numbers@[c]) == if speaker_order(
                    turns@.take(i as int),
                    y,
                ).contains(c) {
                    Some(first_index(speaker_order(turns@.take(i as int), y), c) + 1)
                } else {
                    None
                },
        decreases turns.len() - i,
    {
        let c = turns[i].speaker as usize;
        let ghost prev = speaker_order(turns@.take(i as int), y);
        proof {
            assert(turns@.take(i + 1).drop_last() =~= turns@.take(i as int));
            assert(turns@.take(i + 1).last() == turns@[i as int]);
            lemma_speaker_order_len(turns@.take(i as int), y);
            lemma_first_index(prev, c as int);
        }
        let is_you = match you {
            Some(v) => v == c,
            None => false,
        };
        assert(opt_int(numbers@[c as int]) == if prev.contains(c as int) {
            Some(first_index(prev, c as int) + 1)
        } else {
            None
        });
        if !is_you && numbers[c].is_none() {
            assert(speaker_order(turns@.take(i + 1), y) == prev.push(c as int));
            let ghost old_numbers = numbers@;
            numbers.set(c, Some(count + 1));
            proof {
                assert forall|c2: int| 0 <= c2 <= maxc implies #[trigger] opt_int(numbers@[c2])
                    == if prev.push(c as int).contains(c2) {
                    Some(first_index(prev.push(c as int), c2) + 1)
                } else {
                    None
                } by {
                    lemma_first_index_push(prev, c as int, c2);
                    lemma_first_index(prev.push(c as int), c2);
                    lemma_first_index(prev, c2);
                    if c2 != c as int {
                        assert(numbers@[c2] == old_numbers[c2]);
                    }
                }
            }
            count = count + 1;
        } else {
            assert(speaker_order(turns@.take(i + 1), y) == prev);
        }
        i += 1;
    }
    assert(turns@.take(turns.len() as int) =~= turns@);
    (numbers, count)
}

/// Per-cluster overlap with the window `[s, e]`, for clusters `0..=maxc`.
fn window_overlaps(turns: &Vec<SpeakerTurn>, s: u32, e: u32, maxc: usize) -> (r: Vec<u128>)
    requires
        maxc < 0x8000_0000,
        forall|i: int| 0 <= i < turns.len() ==> 0 <= #[trigger] turns@[i].speaker <= maxc,
    ensures
        r.len() == maxc + 1,
        forall|c: int|
            0 <= c <= maxc ==> #[trigger] r@[c] == window_cluster_overlap(turns@, c, s as int, e as int),
{
    let mut per: Vec<u128> = vec![0u128; maxc + 1];
    let mut i: usize = 0;
    while i < turns.len()
        invariant
            i <= turns.len(),
            forall|k: int| 0 <= k < turns.len() ==> 0 <= #[trigger] turns@[k].speaker <= maxc,
            per.len() == maxc + 1,
            forall|c: int|
                0 <= c <= maxc ==> #[trigger] per@[c] == window_cluster_overlap(
                    turns@.take(i as int),
                    c,
                    s as int,
                    e as int,
                ),
        decreases turns.len() - i,
    {
        let t = turns[i];
        let c = t.speaker as usize;
        let ghost prefix = turns@.take(i as int);
        proof {
            lemma_window_bound(prefix, c as int, s, e);
            assert(i * 0x1_0000_0000int <= 0xffff_ffff_ffff_ffff * 0x1_0000_0000int) by (nonlinear_arith)
                requires
                    i <= 0xffff_ffff_ffff_ffff,
            ;
        }
        let o = overlap(t.start, t.end, s, e);
        let ghost old_per = per@;
        let v = per[c] + o as u128;
        per.set(c, v);
        i += 1;
        proof {
            assert forall|c2: int| 0 <= c2 <= maxc implies #[trigger] per@[c2] == window_cluster_overlap(
                turns@.take(i as int),
                c2,
                s as int,
                e as int,
            ) by {
                let cur = turns@.take(i as int);
                assert(cur.drop_last() =~= prefix);
                assert(cur.last() == t);
                assert(old_per[c2] == window_cluster_overlap(prefix, c2, s as int, e as int));
                if c2 != c as int {
                    assert(per@[c2] == old_per[c2]);
                }
            }
        }
    }
    assert(turns@.take(turns.len() as int) =~= turns@);
    per
}

/// The dominant cluster of the window `[s, e]`.
fn pick_dominant(turns: &Vec<SpeakerTurn>, s: u32, e: u32, maxc: usize) -> (r: Option<usize>)
    requires
        maxc < 0x8000_0000,
        forall|i: int| 0 <= i < turns.len() ==> 0 <= #[trigger] turns@[i].speaker <= maxc,
    ensures
        r matches Some(d) ==> d <= maxc,
        opt_int(r) == dominant_cluster(turns@, s as int, e as int),
{
    let ghost ts = turns@;
    let ghost si = s as int;
    let ghost ei = e as int;
    let per = window_overlaps(turns, s, e, maxc);
    let mut best: Option<usize> = None;
    let mut c: usize = 0;
    while c <= maxc
        invariant
            c <= maxc + 1,
            maxc < 0x8000_0000,
            ts == turns@,
            per.len() == maxc + 1,
            forall|k: int|
                0 <= k <= maxc ==> #[trigger] per@[k] == window_cluster_overlap(ts, k, si, ei),
            best matches Some(b) ==> {
                &&& b < c
                &&& window_cluster_overlap(ts, b as int, si, ei) > 0
                &&& forall|c2: int|
                    #![trigger window_cluster_overlap(ts, c2, si, ei)]
                    0 <= c2 < c ==> window_cluster_overlap(ts, c2, si, ei) <= window_cluster_overlap(
                        ts,
                        b as int,
                        si,
                        ei,
                    ) && (c2 > b ==> window_cluster_overlap(ts, c2, si, ei) < window_cluster_overlap(
                        ts,
                        b as int,
                        si,
                        ei,
                    ))
            },
            best is None ==> forall|c2: int|
                #![trigger window_cluster_overlap(ts, c2, si, ei)]
                0 <= c2 < c ==> window_cluster_overlap(ts, c2, si, ei) <= 0,
        decreases maxc + 1 - c,
    {
        let v = per[c];
        if v > 0 {
            match best {
                None => {
                    best = Some(c);
                },
                Some(b) => {
                    if per[b] <= v {
                        best = Some(c);
                    }
                },
            }
        }
        proof {
            assert(per@[c as int] == window_cluster_overlap(ts, c as int, si, ei));
            lemma_window_bound(ts, c as int, s, e);
        }
        c += 1;
    }
    proof {
        assert forall|c2: int| c2 > maxc implies window_cluster_overlap(ts, c2, si, ei) == 0 by {
            assert forall|i: int| 0 <= i < ts.len() implies #[trigger] ts[i].speaker != c2 by {}
            lemma_absent_cluster(seq![], ts, c2, si, ei);
        }
        assert forall|c2: int| c2 >= 0 implies window_cluster_overlap(ts, c2, si, ei) >= 0 by {
            lemma_window_bound(ts, c2, s, e);
        }
        match best {
            Some(b) => {
                assert(is_dominant(ts, si, ei, b as int));
                assert forall|c2: int| is_dominant(ts, si, ei, c2) implies c2 == b as int by {
                    lemma_dominant_unique(ts, si, ei, c2, b as int);
                }
            },
            None => {
                assert forall|c2: int| !is_dominant(ts, si, ei, c2) by {
                    if is_dominant(ts, si, ei, c2) {
                        assert(window_cluster_overlap(ts, c2, si, ei) > 0);
                    }
                }
            },
        }
    }
    best
}

pub open spec fn opt_pair_view(o: Option<(String, String)>) -> Option<(Seq<char>, Seq<char>)> {
    match o {
        Some(p) => Some(pair_view(p)),
        None => None,
    }
}

/// The label change of one row, given the cluster decisions of the meeting.
fn row_label_change(
    rows: &Vec<TranscriptRow>,
    row: &TranscriptRow,
    turns: &Vec<SpeakerTurn>,
    you: Option<usize>,
    numbers: &Vec<Option<usize>>,
    maxc: usize,
    has_mic_rows: bool,
) -> (r: Option<(String, String)>)
    requires
        maxc < 0x8000_0000,
        forall|i: int| 0 <= i < turns.len() ==> 0 <= #[trigger] turns@[i].speaker <= maxc,
        opt_int(you) == you_cluster(rows@, turns@),
        has_mic_rows == has_mic(rows@),
        numbers.len() == maxc + 1,
        forall|c: int|
            0 <= c <= maxc ==> #[trigger] opt_int(numbers@[c]) == if speaker_order(
                turns@,
                opt_int(you),
            ).contains(c) {
                Some(first_index(speaker_order(turns@, opt_int(you)), c) + 1)
            } else {
                None
            },
    ensures
        opt_pair_view(r) == row_update(rows@, turns@, *row),
{
    if label_is(&row.speaker, "mic") || label_is(&row.speaker, "mixed") {
        return None;
    }
    let (s, e) = match (row.start, row.end) {
        (Some(s), Some(e)) => (s, e),
        _ => {
            return None;
        },
    };
    let dominant = match pick_dominant(turns, s, e, maxc) {
        Some(d) => d,
        None => {
            return None;
        },
    };
    let is_you = match you {
        Some(y) => y == dominant,
        None => false,
    };
    if is_you {
        return None;
    }
    let number = match numbers[dominant] {
        Some(n) => n,
        None => {
            return None;
        },
    };
    let mut label = if has_mic_rows {
        String::from_str("system")
    } else {
        String::from_str("speaker")
    };
    label.append(":");
    push_decimal(&mut label, number as u64);
    proof {
        assert(label@ == speaker_label(has_mic_rows, number as nat));
    }
    if label_is(&row.speaker, label.as_str()) {
        return None;
    }
    let id = row.id.clone();
    Some((id, label))
}

/// Decide the new speaker labels for transcript rows given the diarized
/// turns.
///
/// The cluster spending more than half of its speaking time inside
/// microphone rows (the largest such share) is the local user; the other
/// clusters are numbered 1..N by first appearance. When at least two remote
/// speakers are found, each timed row that is neither "mic" nor "mixed" gets
/// the label of its dominant cluster ("system:N", or "speaker:N" when no row
/// came from the microphone), unless that cluster is the local user's or the
/// row already carries that label.
///
/// Returns the `(row id, new label)` pairs in row order and the number of
/// remote speakers found.
pub fn relabel_rows(rows: &Vec<TranscriptRow>, turns: &Vec<SpeakerTurn>) -> (r: (
    Vec<(String, String)>,
    usize,
))
    requires
        speakers_valid(turns@),
        rows.len() * turns.len() <= 0xffff_ffff_ffff_ffff,
    ensures
        r.0@.map_values(|p: (String, String)| pair_view(p)) == relabel_updates(rows@, turns@),
        r.1 == remote_speaker_count(rows@, turns@),
{
    if turns.len() == 0 {
        let empty: Vec<(String, String)> = Vec::new();
        assert(empty@.map_values(|p: (String, String)| pair_view(p)) =~= seq![]);
        return (empty, 0);
    }
    let has_mic_rows = any_mic_row(rows);
    let maxc = max_speaker(turns);
    let (totals, mics) = cluster_statistics(rows, turns, maxc);
    let you = pick_you_cluster(rows, turns, &totals, &mics, maxc, has_mic_rows);
    let (numbers, num_speakers) = number_speakers(turns, you, maxc);
    let mut updates: Vec<(String, String)> = Vec::new();
    if num_speakers < 2 {
        assert(updates@.map_values(|p: (String, String)| pair_view(p)) =~= seq![]);
        return (updates, num_speakers);
    }
    let mut j: usize = 0;
    while j < rows.len()
        invariant
            j <= rows.len(),
            maxc < 0x8000_0000,
            forall|i: int| 0 <= i < turns.len() ==> 0 <= #[trigger] turns@[i].speaker <= maxc,
            opt_int(you) == you_cluster(rows@, turns@),
            has_mic_rows == has_mic(rows@),
            numbers.len() == maxc + 1,
            forall|c: int|
                0 <= c <= maxc ==> #[trigger] opt_int(numbers@[c]) == if speaker_order(
                    turns@,
                    opt_int(you),
                ).contains(c) {
                    Some(first_index(speaker_order(turns@, opt_int(you)), c) + 1)
                } else {
                    None
                },
            updates@.map_values(|p: (String, String)| pair_view(p)) == updates_of(
                rows@,
                turns@,
                rows@.take(j as int),
            ),
        decreases rows.len() - j,
    {
        let change = row_label_change(rows, &rows[j], turns, you, &numbers, maxc, has_mic_rows);
        let ghost before = updates@;
        proof {
            assert(rows@.take(j + 1).drop_last() =~= rows@.take(j as int));
            assert(rows@.take(j + 1).last() == rows@[j as int]);
        }
        match change {
            Some(p) => {
                updates.push(p);
                proof {
                    assert(updates@.map_values(|p: (String, String)| pair_view(p)) =~= before.map_values(
                        |p: (String, String)| pair_view(p),
                    ).push(pair_view(p)));
                }
            },
            None => {},
        }
        j += 1;
    }
    assert(rows@.take(rows.len() as int) =~= rows@);
    (updates, num_speakers)
}

/// A cluster's time inside a row window adds up over its turns: over two
/// runs of turns it is the sum of its time in each, and a single turn
/// counts its own overlap with the window for its cluster and nothing for
/// any other. So the dominant cluster of a row is the one with the largest
/// total shared time, not the longest single turn.
pub proof fn law_window_overlap_adds_up(
    a: Seq<SpeakerTurn>,
    b: Seq<SpeakerTurn>,
    t: SpeakerTurn,
    c: int,
    s: int,
    e: int,
)
    ensures
        window_cluster_overlap(a + b, c, s, e) == window_cluster_overlap(a, c, s, e)
            + window_cluster_overlap(b, c, s, e),
        window_cluster_overlap(seq![t], c, s, e) == if t.speaker == c {
            spec_overlap(t.start as int, t.end as int, s, e)
        } else {
            0
        },
        window_cluster_overlap(a.push(t), c, s, e) == window_cluster_overlap(a, c, s, e) + if t.speaker
            == c {
            spec_overlap(t.start as int, t.end as int, s, e)
        } else {
            0
        },
    decreases b.len(),
{
    assert(seq![t].drop_last() =~= Seq::<SpeakerTurn>::empty());
    assert(window_cluster_overlap(Seq::<SpeakerTurn>::empty(), c, s, e) == 0);
    assert(seq![t].last() == t);
    assert(a.push(t).drop_last() =~= a);
    if b.len() == 0 {
        assert(a + b =~= a);
    } else {
        law_window_overlap_adds_up(a, b.drop_last(), t, c, s, e);
        assert((a + b).drop_last() =~= a + b.drop_last());
        assert((a + b).last() == b.last());
    }
}

} // verus!
