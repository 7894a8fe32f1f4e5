//! Index and bookkeeping logic of the offline track analysis: key-profile
//! rotation, key naming, pitch classes, inter-onset intervals, analysis
//! windows and the assembly of the beat grid.
use vstd::prelude::*;
use vstd::string::*;

verus! {

/// Profile for the key a `shift` of semitones above C: entry `i` is the
/// C-based profile's entry `i - shift` (mod 12).
pub open spec fn rotated<T>(profile: Seq<T>, shift: int) -> Seq<T> {
    Seq::new(12, |i: int| profile[(i + 12 - shift) % 12])
}

/// Rotate a twelve-entry key profile so that its tonic moves from C up by
/// `shift` semitones.
pub fn rotate_profile<T: Copy>(profile: &[T; 12], shift: usize) -> (r: [T; 12])
    requires
        shift <= 12,
    ensures
        r@ == rotated(profile@, shift as int),
{
    let mut r = *profile;
    let mut i: usize = 0;
    while i < 12
        invariant
            shift <= 12,
            i <= 12,
            r@.len() == 12,
            forall|q: int| 0 <= q < i ==> #[trigger] r@[q] == profile@[(q + 12 - shift) % 12],
        decreases 12 - i,
    {
        let v = profile[(i + 12 - shift) % 12];
        r[i] = v;
        i += 1;
    }
    assert(r@ =~= rotated(profile@, shift as int));
    r
}

/// Rotations compose: rotating by `a` and then by `b` is rotating by
/// `(a + b) mod 12`, and rotating by 0 or 12 changes nothing.
pub proof fn lemma_rotation_composes<T>(profile: Seq<T>, a: int, b: int)
    requires
        profile.len() == 12,
        0 <= a <= 12,
        0 <= b <= 12,
    ensures
        rotated(rotated(profile, a), b) =~= rotated(profile, (a + b) % 12),
        rotated(profile, 0) =~= profile,
        rotated(profile, 12) =~= profile,
{
    assert forall|i: int| 0 <= i < 12 implies #[trigger] rotated(rotated(profile, a), b)[i]
        == rotated(profile, (a + b) % 12)[i] by {
        lemma_mod12(i + 12 - b);
        let j = (i + 12 - b) % 12;
        lemma_mod12(j + 12 - a);
        lemma_mod12(a + b);
        lemma_mod12(i + 12 - (a + b) % 12);
    }
    assert forall|i: int| 0 <= i < 12 implies #[trigger] rotated(profile, 0)[i] == profile[i] by {
        lemma_mod12(i + 12);
    }
    assert forall|i: int| 0 <= i < 12 implies #[trigger] rotated(profile, 12)[i] == profile[i] by {
        lemma_mod12(i);
    }
}

proof fn lemma_mod12(x: int)
    requires
        0 <= x < 36,
    ensures
        x < 12 ==> x % 12 == x,
        12 <= x < 24 ==> x % 12 == x - 12,
        24 <= x ==> x % 12 == x - 24,
{
}

/// Name of pitch class `pc` (0 = C), with flats for the black keys except F#.
pub open spec fn note_name(pc: int) -> Seq<char> {
    if pc == 0 {
        seq!['C']
    } else if pc == 1 {
        seq!['C', '#']
    } else if pc == 2 {
        seq!['D']
    } else if pc == 3 {
        seq!['E', 'b']
    } else if pc == 4 {
        seq!['E']
    } else if pc == 5 {
        seq!['F']
    } else if pc == 6 {
        seq!['F', '#']
    } else if pc == 7 {
        seq!['G']
    } else if pc == 8 {
        seq!['A', 'b']
    } else if pc == 9 {
        seq!['A']
    } else if pc == 10 {
        seq!['B', 'b']
    } else {
        seq!['B']
    }
}

pub open spec fn mode_suffix(minor: bool) -> Seq<char> {
    if minor {
        seq![' ', 'm', 'i', 'n', 'o', 'r']
    } else {
        seq![' ', 'm', 'a', 'j', 'o', 'r']
    }
}

fn note_str(pc: usize) -> (s: &'static str)
    requires
        pc < 12,
    ensures
        s@ == note_name(pc as int),
{
    if pc == 0 {
        proof { reveal_strlit("C"); }
        "C"
    } else if pc == 1 {
        proof { reveal_strlit("C#"); }
        "C#"
    } else if pc == 2 {
        proof { reveal_strlit("D"); }
        "D"
    } else if pc == 3 {
        proof { reveal_strlit("Eb"); }
        "Eb"
    } else if pc == 4 {
        proof { reveal_strlit("E"); }
        "E"
    } else if pc == 5 {
        proof { reveal_strlit("F"); }
        "F"
    } else if pc == 6 {
        proof { reveal_strlit("F#"); }
        "F#"
    } else if pc == 7 {
        proof { reveal_strlit("G"); }
        "G"
    } else if pc == 8 {
        proof { reveal_strlit("Ab"); }
        "Ab"
    } else if pc == 9 {
        proof { reveal_strlit("A"); }
        "A"
    } else if pc == 10 {
        proof { reveal_strlit("Bb"); }
        "Bb"
    } else {
        proof { reveal_strlit("B"); }
        "B"
    }
}

/// Pitch class of a natural note letter (C = 0, ..., B = 11); -1 for any
/// other character.
pub open spec fn natural_pitch(c: char) -> int {
    if c == 'C' {
        0
    } else if c == 'D' {
        2
    } else if c == 'E' {
        4
    } else if c == 'F' {
        5
    } else if c == 'G' {
        7
    } else if c == 'A' {
        9
    } else if c == 'B' {
        11
    } else {
        -1
    }
}

/// Semitones an accidental moves a note: +1 for a sharp, -1 for a flat.
pub open spec fn accidental(c: char) -> int {
    if c == '#' {
        1
    } else if c == 'b' {
        -1
    } else {
        0
    }
}

/// The pitch class that a name starting with a note letter, optionally
/// followed by an accidental, spells.
pub open spec fn spelled_pitch(name: Seq<char>) -> int {
    (natural_pitch(name[0]) + accidental(name[1]) + 12) % 12
}

/// A key name is spelled in the note letters: its leading note names the
/// tonic's pitch class, and only C# and F# are spelled with a sharp.
pub proof fn lemma_key_name_spelling(tonic: int, minor: bool)
    requires
        0 <= tonic < 12,
    ensures
        natural_pitch((note_name(tonic) + mode_suffix(minor))[0]) >= 0,
        spelled_pitch(note_name(tonic) + mode_suffix(minor)) == tonic,
        (note_name(tonic) + mode_suffix(minor))[1] == '#' ==> tonic == 1 || tonic == 6,
{
    let s = note_name(tonic) + mode_suffix(minor);
    assert(s[0] == note_name(tonic)[0]);
    if note_name(tonic).len() == 1 {
        assert(s[1] == mode_suffix(minor)[0]);
    } else {
        assert(s[1] == note_name(tonic)[1]);
    }
}

/// Distinct tonics give distinct key names.
pub proof fn lemma_key_names_distinct(t1: int, t2: int, minor1: bool, minor2: bool)
    requires
        0 <= t1 < 12,
        0 <= t2 < 12,
        t1 != t2,
    ensures
        note_name(t1) + mode_suffix(minor1) != note_name(t2) + mode_suffix(minor2),
{
    lemma_key_name_spelling(t1, minor1);
    lemma_key_name_spelling(t2, minor2);
}

/// The name of a key, such as "A minor" or "Eb major".
pub fn key_name(tonic: usize, minor: bool) -> (s: String)
    requires
        tonic < 12,
    ensures
        s@ == note_name(tonic as int) + mode_suffix(minor),
        natural_pitch(s@[0]) >= 0,
        spelled_pitch(s@) == tonic,
        s@[1] == '#' ==> tonic == 1 || tonic == 6,
{
    proof {
        lemma_key_name_spelling(tonic as int, minor);
    }
    let mut s = String::from_str(note_str(tonic));
    if minor {
        proof { reveal_strlit(" minor"); }
        s.append(" minor");
    } else {
        proof { reveal_strlit(" major"); }
        s.append(" major");
    }
    assert(s@ =~= note_name(tonic as int) + mode_suffix(minor));
    s
}

/// Label used when no key could be detected.
pub fn unknown_key() -> (s: String)
    ensures
        s@ == seq!['-', '-', '-'],
{
    proof { reveal_strlit("---"); }
    String::from_str("---")
}

/// Pitch class (0 = C, ..., 11 = B) of a MIDI note number, for negative
/// numbers too.
pub fn pitch_class(midi_note: i64) -> (pc: usize)
    ensures
        pc == midi_note as int % 12,
        pc < 12,
{
    let r = midi_note % 12;
    if r < 0 {
        (r + 12) as usize
    } else {
        r as usize
    }
}

/// The intervals, in frames, between peaks `gap` apart, each tagged with
/// its gap.
pub open spec fn gap_intervals(peaks: Seq<usize>, gap: int) -> Seq<(usize, int)> {
    if peaks.len() <= gap {
        Seq::empty()
    } else {
        Seq::new((peaks.len() - gap) as nat, |i: int| (gap as usize, peaks[i + gap] - peaks[i]))
    }
}

/// How many pairs of positions `gap` apart a sequence of `n` items holds.
pub open spec fn pairs_apart(n: nat, gap: int) -> int {
    if n > gap {
        n - gap
    } else {
        0
    }
}

pub open spec fn strictly_increasing(s: Seq<usize>) -> bool {
    forall|i: int, j: int| 0 <= i < j < s.len() ==> s[i] < s[j]
}

/// Inter-onset intervals between onset peaks one, two and three apart, in
/// that order, each as `(gap, frames)`.
pub fn inter_onset_intervals(peaks: &[usize]) -> (r: Vec<(usize, usize)>)
    requires
        strictly_increasing(peaks@),
    ensures
        r@.len() == gap_intervals(peaks@, 1).len() + gap_intervals(peaks@, 2).len()
            + gap_intervals(peaks@, 3).len(),
        forall|k: int|
            0 <= k < r@.len() ==> ((#[trigger] r@[k]).0, r@[k].1 as int) == (gap_intervals(
                peaks@,
                1,
            ) + gap_intervals(peaks@, 2) + gap_intervals(peaks@, 3))[k],
        forall|k: int| 0 <= k < r@.len() ==> (#[trigger] r@[k]).1 > 0,
        r@.len() == pairs_apart(peaks@.len(), 1) + pairs_apart(peaks@.len(), 2) + pairs_apart(
            peaks@.len(),
            3,
        ),
        peaks@.len() >= 3 ==> r@.len() == 3 * peaks@.len() - 6,
        forall|i: int|
            0 <= i < pairs_apart(peaks@.len(), 1) ==> (#[trigger] r@[i]).0 == 1 && r@[i].1
                == peaks@[i + 1] - peaks@[i],
        forall|i: int|
            0 <= i < pairs_apart(peaks@.len(), 2) ==> (#[trigger] r@[pairs_apart(peaks@.len(), 1) + i]).0
                == 2 && r@[pairs_apart(peaks@.len(), 1) + i].1 == peaks@[i + 2] - peaks@[i],
        forall|i: int|
            0 <= i < pairs_apart(peaks@.len(), 3) ==> (#[trigger] r@[pairs_apart(peaks@.len(), 1)
                + pairs_apart(peaks@.len(), 2) + i]).0 == 3 && r@[pairs_apart(peaks@.len(), 1)
                + pairs_apart(peaks@.len(), 2) + i].1 == peaks@[i + 3] - peaks@[i],
{
    let mut r: Vec<(usize, usize)> = Vec::new();
    let ghost mut expect: Seq<(usize, int)> = Seq::empty();
    let len = peaks.len();
    let mut gap: usize = 1;
    while gap <= 3
        invariant
            len == peaks@.len(),
            strictly_increasing(peaks@),
            1 <= gap <= 4,
            expect == (if gap == 1 {
                Seq::empty()
            } else if gap == 2 {
                gap_intervals(peaks@, 1)
            } else if gap == 3 {
                gap_intervals(peaks@, 1) + gap_intervals(peaks@, 2)
            } else {
                gap_intervals(peaks@, 1) + gap_intervals(peaks@, 2) + gap_intervals(peaks@, 3)
            }),
            r@.len() == expect.len(),
            forall|k: int| 0 <= k < r@.len() ==> ((#[trigger] r@[k]).0, r@[k].1 as int) == expect[k],
            forall|k: int| 0 <= k < r@.len() ==> (#[trigger] r@[k]).1 > 0,
        decreases 4 - gap,
    {
        let ghost base = expect;
        if len > gap {
            let mut i: usize = 0;
            while i < len - gap
                invariant
                    len == peaks@.len(),
                    strictly_increasing(peaks@),
                    1 <= gap <= 3,
                    len > gap,
                    i <= len - gap,
                    r@.len() == base.len() + i,
                    forall|k: int| 0 <= k < base.len() ==> ((#[trigger] r@[k]).0, r@[k].1 as int) == base[k],
                    forall|k: int|
                        base.len() <= k < r@.len() ==> ((#[trigger] r@[k]).0, r@[k].1 as int) == gap_intervals(
                            peaks@,
                            gap as int,
                        )[k - base.len()],
                    forall|k: int| 0 <= k < r@.len() ==> (#[trigger] r@[k]).1 > 0,
                decreases len - gap - i,
            {
                assert(peaks@[i as int] < peaks@[i + gap]);
                let d = peaks[i + gap] - peaks[i];
                r.push((gap, d));
                i += 1;
            }
        }
        proof {
            expect = base + gap_intervals(peaks@, gap as int);
            assert forall|k: int| 0 <= k < r@.len() implies ((#[trigger] r@[k]).0, r@[k].1 as int)
                == expect[k] by {
                if k >= base.len() {
                    assert(expect[k] == gap_intervals(peaks@, gap as int)[k - base.len()]);
                }
            }
        }
        gap += 1;
        proof {
            if gap == 2 {
                assert(expect =~= gap_intervals(peaks@, 1));
            }
        }
    }
    proof {
        let n = peaks@.len();
        let a = gap_intervals(peaks@, 1);
        let b = gap_intervals(peaks@, 2);
        let c = gap_intervals(peaks@, 3);
        assert(a.len() == pairs_apart(n, 1));
        assert(b.len() == pairs_apart(n, 2));
        assert(c.len() == pairs_apart(n, 3));
        assert forall|i: int| 0 <= i < pairs_apart(n, 1) implies (#[trigger] r@[i]).0 == 1
            && r@[i].1 == peaks@[i + 1] - peaks@[i] by {
            assert((a + b + c)[i] == a[i]);
        }
        assert forall|i: int| 0 <= i < pairs_apart(n, 2) implies (#[trigger] r@[pairs_apart(n, 1) + i]).0
            == 2 && r@[pairs_apart(n, 1) + i].1 == peaks@[i + 2] - peaks@[i] by {
            assert((a + b + c)[a.len() + i] == b[i]);
        }
        assert forall|i: int| 0 <= i < pairs_apart(n, 3) implies (#[trigger] r@[pairs_apart(n, 1)
            + pairs_apart(n, 2) + i]).0 == 3 && r@[pairs_apart(n, 1) + pairs_apart(n, 2) + i].1
            == peaks@[i + 3] - peaks@[i] by {
            assert((a + b + c)[a.len() + b.len() + i] == c[i]);
        }
    }
    r
}

/// With at least three onset peaks, every pair one, two or three peaks
/// apart yields an interval: `3n - 6` of them for `n` peaks.
pub proof fn lemma_interval_count(n: nat)
    requires
        n >= 3,
    ensures
        pairs_apart(n, 1) + pairs_apart(n, 2) + pairs_apart(n, 3) == 3 * n - 6,
{
}

/// `[center - before, center + after)` clipped to `[0, len)`, as used for
/// local means, histogram smoothing, tempo windows and beat snapping.
pub fn window_bounds(center: usize, before: usize, after: usize, len: usize) -> (r: (usize, usize))
    requires
        center + after <= usize::MAX,
    ensures
        r.0 == (if center >= before {
            center - before
        } else {
            0
        }),
        r.1 == (if center + after < len {
            center + after
        } else {
            len as int
        }),
{
    let start = if center >= before {
        center - before
    } else {
        0
    };
    let end = if center + after < len {
        center + after
    } else {
        len
    };
    (start, end)
}

/// A beat grid assembled from the beats found walking backward from the
/// first beat (nearest first), the first beat, and the beats found walking
/// forward.
pub fn merge_beat_grid<T: Copy>(backward: &[T], first: T, forward: &[T]) -> (r: Vec<T>)
    ensures
        r@ == backward@.reverse() + seq![first] + forward@,
{
    let mut r: Vec<T> = Vec::new();
    let n = backward.len();
    let mut i: usize = 0;
    while i < n
        invariant
            n == backward@.len(),
            i <= n,
            r@.len() == i,
            forall|k: int| 0 <= k < i ==> #[trigger] r@[k] == backward@[n - 1 - k],
        decreases n - i,
    {
        r.push(backward[n - 1 - i]);
        i += 1;
    }
    r.push(first);
    let m = forward.len();
    let mut j: usize = 0;
    while j < m
        invariant
            n == backward@.len(),
            m == forward@.len(),
            j <= m,
            r@.len() == n + 1 + j,
            forall|k: int| 0 <= k < n ==> #[trigger] r@[k] == backward@[n - 1 - k],
            r@[n as int] == first,
            forall|k: int| n + 1 <= k < n + 1 + j ==> #[trigger] r@[k] == forward@[k - n - 1],
        decreases m - j,
    {
        r.push(forward[j]);
        j += 1;
    }
    let ghost rv = backward@.reverse();
    assert(rv.len() == n);
    assert forall|k: int| 0 <= k < n implies #[trigger] rv[k] == backward@[n - 1 - k] by {}
    assert(r@ =~= rv + seq![first] + forward@);
    r
}

/// The beat grid is in time order: when every beat found walking backward
/// lies before the previous one (and before the first beat), and every beat
/// found walking forward lies after the previous one (and after the first
/// beat), the assembled grid is strictly increasing.
pub proof fn lemma_beat_grid_increasing(backward: Seq<usize>, first: usize, forward: Seq<usize>)
    requires
        forall|i: int, j: int| 0 <= i < j < backward.len() ==> backward[j] < backward[i],
        forall|i: int| 0 <= i < backward.len() ==> backward[i] < first,
        strictly_increasing(forward),
        forall|i: int| 0 <= i < forward.len() ==> first < forward[i],
    ensures
        strictly_increasing(backward.reverse() + seq![first] + forward),
{
    let g = backward.reverse() + seq![first] + forward;
    let n = backward.len() as int;
    assert forall|i: int, j: int| 0 <= i < j < g.len() implies g[i] < g[j] by {
        if j < n {
            assert(g[i] == backward[n - 1 - i]);
            assert(g[j] == backward[n - 1 - j]);
        } else if j == n {
            assert(g[j] == first);
            assert(g[i] == backward[n - 1 - i]);
        } else {
            assert(g[j] == forward[j - n - 1]);
            if i < n {
                assert(g[i] == backward[n - 1 - i]);
                assert(backward[n - 1 - i] < first);
            } else if i == n {
                assert(g[i] == first);
            } else {
                assert(g[i] == forward[i - n - 1]);
            }
        }
    }
}

} // verus!
