//! Reminder lists: how the "minutes before" settings are read and written.
use vstd::prelude::*;
use std::collections::HashSet;
use crate::text::{
    all_digits, char_is_digit, chars_of, decimal_value, int_chars, is_digit,
    is_white_space, lemma_decimal_chars, lemma_int_chars_parse, parse_i64, parse_int, pieces,
    pieces_acc, split_chars, trim, trim_chars, trim_end, trim_start,
};

verus! {

/// Splits `s` at every character that is not an ASCII digit: the runs
/// finished so far and the run still open at the end of `s`.
pub open spec fn digit_runs_acc(s: Seq<char>) -> (Seq<Seq<char>>, Seq<char>)
    decreases s.len(),
{
    if s.len() == 0 {
        (Seq::empty(), Seq::empty())
    } else {
        let (done, cur) = digit_runs_acc(s.drop_last());
        if is_digit(s.last()) {
            (done, cur.push(s.last()))
        } else if cur.len() > 0 {
            (done.push(cur), Seq::empty())
        } else {
            (done, Seq::empty())
        }
    }
}

/// The non-empty maximal runs of ASCII digits in `s`, left to right: what
/// `s.split(|c| !c.is_ascii_digit()).filter(|x| !x.is_empty())` yields.
pub open spec fn digit_runs(s: Seq<char>) -> Seq<Seq<char>> {
    let (done, cur) = digit_runs_acc(s);
    if cur.len() > 0 {
        done.push(cur)
    } else {
        done
    }
}

/// The values of the runs that `parse::<i64>()` accepts (those that fit in
/// an `i64`), in order.
pub open spec fn run_numbers(runs: Seq<Seq<char>>) -> Seq<int>
    decreases runs.len(),
{
    if runs.len() == 0 {
        Seq::empty()
    } else {
        let rest = run_numbers(runs.drop_last());
        if decimal_value(runs.last()) <= i64::MAX {
            rest.push(decimal_value(runs.last()) as int)
        } else {
            rest
        }
    }
}

/// The numbers written in `s`, whatever separates them.
pub open spec fn listed_numbers(s: Seq<char>) -> Seq<int> {
    run_numbers(digit_runs(s))
}

/// `m.clamp(0, 1440)`: a reminder is at most one day before the event.
pub open spec fn clamp_minutes(m: int) -> int {
    if m < 0 {
        0
    } else if m > 1440 {
        1440
    } else {
        m
    }
}

/// The value kept for a listed number: clamped or not.
pub open spec fn adjusted(m: int, clamp: bool) -> int {
    if clamp {
        clamp_minutes(m)
    } else {
        m
    }
}

/// Largest first, each value once.
pub open spec fn strictly_descending(v: Seq<i64>) -> bool {
    forall|i: int, j: int| 0 <= i < j < v.len() ==> v[i] > v[j]
}

/// The strictly descending list of the values of `nums` that fit in an
/// `i64`: the one list with those elements, largest first, each once.
pub open spec fn descending_of(nums: Seq<int>) -> Seq<i64> {
    choose|v: Seq<i64>|
        strictly_descending(v) && (forall|y: i64| v.contains(y) <==> nums.contains(y as int))
}

/// Two strictly descending lists with the same elements are equal.
pub proof fn lemma_descending_unique(a: Seq<i64>, b: Seq<i64>)
    requires
        strictly_descending(a),
        strictly_descending(b),
        forall|y: i64| a.contains(y) <==> b.contains(y),
    ensures
        a == b,
    decreases a.len(),
{
    if a.len() == 0 {
        if b.len() > 0 {
            assert(b.contains(b[0]));
        }
        assert(a =~= b);
    } else {
        assert(a.contains(a[0]));
        assert(b.len() > 0);
        assert(b.contains(b[0]));
        let ja = choose|j: int| 0 <= j < a.len() && a[j] == b[0];
        let jb = choose|j: int| 0 <= j < b.len() && b[j] == a[0];
        assert(a[0] >= a[ja]);
        assert(b[0] >= b[jb]);
        assert(a[0] == b[0]);
        let ta = a.drop_first();
        let tb = b.drop_first();
        assert forall|y: i64| ta.contains(y) <==> tb.contains(y) by {
            if ta.contains(y) {
                let k = choose|k: int| 0 <= k < ta.len() && ta[k] == y;
                assert(a[k + 1] == y);
                assert(a.contains(y));
                let m = choose|m: int| 0 <= m < b.len() && b[m] == y;
                assert(y < a[0]);
                assert(m != 0);
                assert(tb[m - 1] == y);
            }
            if tb.contains(y) {
                let k = choose|k: int| 0 <= k < tb.len() && tb[k] == y;
                assert(b[k + 1] == y);
                assert(b.contains(y));
                let m = choose|m: int| 0 <= m < a.len() && a[m] == y;
                assert(y < b[0]);
                assert(m != 0);
                assert(ta[m - 1] == y);
            }
        }
        lemma_descending_unique(ta, tb);
        assert(a =~= seq![a[0]] + ta);
        assert(b =~= seq![b[0]] + tb);
    }
}

/// `v` with `x` added where it keeps `v` strictly descending (unchanged if
/// `x` is already there).
pub open spec fn desc_insert(v: Seq<i64>, x: i64) -> Seq<i64>
    decreases v.len(),
{
    if v.len() == 0 {
        seq![x]
    } else if v[0] == x {
        v
    } else if v[0] < x {
        seq![x] + v
    } else {
        seq![v[0]] + desc_insert(v.drop_first(), x)
    }
}

proof fn lemma_desc_insert(v: Seq<i64>, x: i64)
    requires
        strictly_descending(v),
    ensures
        strictly_descending(desc_insert(v, x)),
        forall|y: i64| #[trigger] desc_insert(v, x).contains(y) <==> (v.contains(y) || y == x),
        desc_insert(v, x).len() > 0,
        v.len() > 0 ==> desc_insert(v, x)[0] == (if v[0] < x { x } else { v[0] }),
    decreases v.len(),
{
    let w = desc_insert(v, x);
    if v.len() == 0 {
        assert(w =~= seq![x]);
        assert forall|y: i64| w.contains(y) <==> (v.contains(y) || y == x) by {
            if w.contains(y) {
                assert(w[0] == y);
            }
            if y == x {
                assert(w[0] == x);
            }
        }
    } else if v[0] == x {
        assert(v.contains(x));
    } else if v[0] < x {
        assert forall|i: int, j: int| 0 <= i < j < w.len() implies w[i] > w[j] by {
            if i > 0 {
                assert(w[i] == v[i - 1] && w[j] == v[j - 1]);
            } else {
                assert(w[j] == v[j - 1]);
                assert(v[0] >= v[j - 1]);
            }
        }
        assert forall|y: i64| w.contains(y) <==> (v.contains(y) || y == x) by {
            if w.contains(y) {
                let k = choose|k: int| 0 <= k < w.len() && w[k] == y;
                if k > 0 {
                    assert(v[k - 1] == y);
                }
            }
            if v.contains(y) {
                let k = choose|k: int| 0 <= k < v.len() && v[k] == y;
                assert(w[k + 1] == y);
            }
            if y == x {
                assert(w[0] == x);
            }
        }
    } else {
        let t = v.drop_first();
        assert forall|i: int, j: int| 0 <= i < j < t.len() implies t[i] > t[j] by {
            assert(t[i] == v[i + 1] && t[j] == v[j + 1]);
        }
        lemma_desc_insert(t, x);
        let u = desc_insert(t, x);
        assert(w =~= seq![v[0]] + u);
        assert forall|y: i64| u.contains(y) implies y < v[0] by {
            if t.contains(y) {
                let k = choose|k: int| 0 <= k < t.len() && t[k] == y;
                assert(v[k + 1] == y);
            }
        }
        assert forall|i: int, j: int| 0 <= i < j < w.len() implies w[i] > w[j] by {
            if i > 0 {
                assert(w[i] == u[i - 1] && w[j] == u[j - 1]);
            } else {
                assert(w[j] == u[j - 1]);
                assert(u.contains(u[j - 1]));
            }
        }
        assert forall|y: i64| w.contains(y) <==> (v.contains(y) || y == x) by {
            if w.contains(y) {
                let k = choose|k: int| 0 <= k < w.len() && w[k] == y;
                if k > 0 {
                    assert(u[k - 1] == y);
                    assert(u.contains(y));
                    if t.contains(y) {
                        let m = choose|m: int| 0 <= m < t.len() && t[m] == y;
                        assert(v[m + 1] == y);
                    }
                } else {
                    assert(v[0] == y);
                }
            }
            if v.contains(y) {
                let k = choose|k: int| 0 <= k < v.len() && v[k] == y;
                if k > 0 {
                    assert(t[k - 1] == y);
                    assert(t.contains(y));
                    assert(u.contains(y));
                    let m = choose|m: int| 0 <= m < u.len() && u[m] == y;
                    assert(w[m + 1] == y);
                } else {
                    assert(w[0] == y);
                }
            }
            if y == x {
                assert(desc_insert(t, x).contains(y));
                let m = choose|m: int| 0 <= m < u.len() && u[m] == y;
                assert(w[m + 1] == y);
            }
        }
    }
}

/// Some strictly descending list has exactly the values of `nums` that fit
/// in an `i64`.
proof fn lemma_descending_exists(nums: Seq<int>) -> (v: Seq<i64>)
    ensures
        strictly_descending(v),
        forall|y: i64| v.contains(y) <==> nums.contains(y as int),
    decreases nums.len(),
{
    if nums.len() == 0 {
        let v = Seq::<i64>::empty();
        v
    } else {
        let w = lemma_descending_exists(nums.drop_last());
        let x = nums.last();
        let v = if i64::MIN <= x <= i64::MAX {
            lemma_desc_insert(w, x as i64);
            desc_insert(w, x as i64)
        } else {
            w
        };
        assert forall|y: i64| v.contains(y) <==> nums.contains(y as int) by {
            if nums.contains(y as int) {
                let k = choose|k: int| 0 <= k < nums.len() && nums[k] == y as int;
                if k < nums.len() - 1 {
                    assert(nums.drop_last()[k] == y as int);
                }
            }
            if nums.drop_last().contains(y as int) {
                let k = choose|k: int| 0 <= k < nums.drop_last().len() && nums.drop_last()[k] == y as int;
                assert(nums[k] == y as int);
            }
        }
        v
    }
}

/// `descending_of(nums)` is strictly descending and holds exactly the values
/// of `nums` that fit in an `i64`.
pub proof fn lemma_descending_of_props(nums: Seq<int>)
    ensures
        strictly_descending(descending_of(nums)),
        forall|y: i64| descending_of(nums).contains(y) <==> nums.contains(y as int),
{
    let v = lemma_descending_exists(nums);
    lemma_descending_of(v, nums);
}

/// A strictly descending list with the elements of `nums` is `descending_of(nums)`.
pub proof fn lemma_descending_of(v: Seq<i64>, nums: Seq<int>)
    requires
        strictly_descending(v),
        forall|y: i64| v.contains(y) <==> nums.contains(y as int),
    ensures
        descending_of(nums) == v,
{
    let w = descending_of(nums);
    assert(strictly_descending(w) && (forall|y: i64| w.contains(y) <==> nums.contains(y as int)));
    lemma_descending_unique(w, v);
}

// ---------------------------------------------------------------------------
// the reminders already fired for an event
// ---------------------------------------------------------------------------

/// What a piece of the fired list stands for: the piece, trimmed, read as
/// an `i64` (`None` when it does not read as one).
pub open spec fn piece_value(p: Seq<char>) -> Option<int> {
    parse_int(trim(p), true, i64::MIN as int, i64::MAX as int)
}

/// The values that the pieces `ps` stand for.
pub open spec fn piece_values(ps: Seq<Seq<char>>) -> Set<int> {
    Set::new(|x: int| exists|i: int| 0 <= i < ps.len() && #[trigger] piece_value(ps[i]) == Some(x))
}

/// The reminders recorded in `s`, a list of minutes separated by commas:
/// every piece that, trimmed, reads as an `i64`.
pub open spec fn fired_set(s: Seq<char>) -> Set<int> {
    piece_values(pieces(s, ','))
}

/// The record `s` with the reminder `lead` added at its end.
pub open spec fn with_lead(s: Seq<char>, lead: int) -> Seq<char> {
    if s.len() == 0 {
        int_chars(lead)
    } else {
        s + seq![','] + int_chars(lead)
    }
}

/// Reads the reminders recorded in `s`
/// (`s.split(',').filter_map(|x| x.trim().parse::<i64>().ok())`, collected
/// into a set).
pub fn fired_leads(s: &str) -> (r: HashSet<i64>)
    ensures
        forall|y: i64| r@.contains(y) <==> fired_set(s@).contains(y as int),
{
    broadcast use vstd::std_specs::hash::group_hash_axioms;

    let cs = chars_of(s);
    let parts = split_chars(&cs, ',');
    let ghost ps = pieces(s@, ',');
    let mut r: HashSet<i64> = HashSet::new();
    let mut i: usize = 0;
    while i < parts.len()
        invariant
            i <= parts@.len(),
            parts@.len() == ps.len(),
            ps == pieces(s@, ','),
            forall|k: int| 0 <= k < parts@.len() ==> parts@[k]@ == ps[k],
            forall|y: i64|
                r@.contains(y) <==> exists|k: int| 0 <= k < i && #[trigger] piece_value(ps[k]) == Some(y as int),
        decreases parts@.len() - i,
    {
        let t = trim_chars(&parts[i]);
        let got = parse_i64(&t);
        let ghost before = r@;
        match got {
            Some(v) => {
                r.insert(v);
                assert(piece_value(ps[i as int]) == Some(v as int));
            },
            None => {},
        }
        assert forall|y: i64|
            r@.contains(y) <==> exists|k: int| 0 <= k < i + 1 && #[trigger] piece_value(ps[k]) == Some(y as int) by {
            if exists|k: int| 0 <= k < i + 1 && #[trigger] piece_value(ps[k]) == Some(y as int) {
                let k = choose|k: int| 0 <= k < i + 1 && #[trigger] piece_value(ps[k]) == Some(y as int);
                if k < i {
                    assert(before.contains(y));
                }
            }
        }
        i = i + 1;
    }
    assert forall|y: i64| r@.contains(y) <==> fired_set(s@).contains(y as int) by {
        if fired_set(s@).contains(y as int) {
            let k = choose|k: int| 0 <= k < ps.len() && #[trigger] piece_value(ps[k]) == Some(y as int);
        }
    }
    r
}

/// Appending characters without a separator extends the open piece.
proof fn lemma_pieces_plain(p: Seq<char>, t: Seq<char>, sep: char)
    requires
        forall|i: int| 0 <= i < t.len() ==> t[i] != sep,
    ensures
        pieces_acc(p + t, sep) == (pieces_acc(p, sep).0, pieces_acc(p, sep).1 + t),
    decreases t.len(),
{
    if t.len() == 0 {
        assert(p + t =~= p);
        assert(pieces_acc(p, sep).1 + t =~= pieces_acc(p, sep).1);
    } else {
        lemma_pieces_plain(p, t.drop_last(), sep);
        assert((p + t).drop_last() =~= p + t.drop_last());
        assert((p + t).last() == t.last());
        assert((pieces_acc(p, sep).1 + t.drop_last()).push(t.last()) =~= pieces_acc(p, sep).1 + t);
    }
}

/// A written number holds no comma and no white space at its ends.
proof fn lemma_int_chars_shape(n: int)
    ensures
        int_chars(n).len() > 0,
        forall|i: int| 0 <= i < int_chars(n).len() ==> int_chars(n)[i] != ',',
        trim(int_chars(n)) == int_chars(n),
{
    let x = int_chars(n);
    let m: nat = if n < 0 {
        (-n) as nat
    } else {
        n as nat
    };
    lemma_decimal_chars(m);
    let d = crate::text::decimal_chars(m);
    assert forall|i: int| 0 <= i < x.len() implies x[i] != ',' && (x[i] == '-' || is_digit(x[i])) by {
        if n < 0 {
            if i > 0 {
                assert(x[i] == d[i - 1]);
            }
        } else {
            assert(x[i] == d[i]);
        }
    }
    assert(!is_white_space(x[0]));
    assert(!is_white_space(x.last()));
    assert(trim_start(x) == x);
    assert(trim_end(x) == x);
}

/// Adding a reminder to a record adds exactly that reminder to what the
/// record reads as.
pub proof fn lemma_fired_with_lead(s: Seq<char>, lead: int)
    requires
        i64::MIN <= lead <= i64::MAX,
    ensures
        fired_set(with_lead(s, lead)) == fired_set(s).insert(lead),
{
    let x = int_chars(lead);
    lemma_int_chars_shape(lead);
    lemma_int_chars_parse(lead);
    assert(piece_value(x) == Some(lead));
    let e = Seq::<char>::empty();
    if s.len() == 0 {
        lemma_pieces_plain(e, x, ',');
        assert(e + x =~= x);
        assert(pieces_acc(e, ',') == (Seq::<Seq<char>>::empty(), e));
        assert(e + x =~= x);
        let ps = pieces(x, ',');
        assert(ps =~= seq![x]);
        assert(pieces(s, ',') =~= seq![e]) by {
            assert(s =~= e);
        }
        assert(trim(e) =~= e);
        assert(piece_value(e) is None);
        assert(fired_set(s) =~= Set::<int>::empty()) by {
            assert forall|v: int| !fired_set(s).contains(v) by {
                if fired_set(s).contains(v) {
                    let k = choose|k: int| 0 <= k < pieces(s, ',').len() && #[trigger] piece_value(pieces(s, ',')[k]) == Some(v);
                    assert(k == 0);
                }
            }
        }
        assert(fired_set(with_lead(s, lead)) =~= set![lead]) by {
            assert forall|v: int| fired_set(x).contains(v) <==> v == lead by {
                if fired_set(x).contains(v) {
                    let k = choose|k: int| 0 <= k < ps.len() && #[trigger] piece_value(ps[k]) == Some(v);
                    assert(k == 0);
                }
                if v == lead {
                    assert(piece_value(ps[0]) == Some(v));
                }
            }
        }
    } else {
        let q = s.push(',');
        assert(q.drop_last() =~= s);
        let (done, cur) = pieces_acc(s, ',');
        assert(pieces_acc(q, ',') == (done.push(cur), e));
        lemma_pieces_plain(q, x, ',');
        assert(e + x =~= x);
        assert(with_lead(s, lead) =~= q + x);
        let ps = pieces(s, ',');
        let qs = pieces(q + x, ',');
        assert(qs =~= ps.push(x));
        assert(fired_set(with_lead(s, lead)) =~= fired_set(s).insert(lead)) by {
            assert forall|v: int| piece_values(qs).contains(v) <==> (piece_values(ps).contains(v) || v == lead) by {
                if piece_values(qs).contains(v) {
                    let k = choose|k: int| 0 <= k < qs.len() && #[trigger] piece_value(qs[k]) == Some(v);
                    if k < ps.len() {
                        assert(qs[k] == ps[k]);
                    }
                }
                if piece_values(ps).contains(v) {
                    let k = choose|k: int| 0 <= k < ps.len() && #[trigger] piece_value(ps[k]) == Some(v);
                    assert(qs[k] == ps[k]);
                }
                if v == lead {
                    assert(qs[ps.len() as int] == x);
                }
            }
        }
    }
}

/// Adds `x` to a strictly descending list, keeping it strictly descending.
fn insert_descending(v: &mut Vec<i64>, x: i64)
    requires
        strictly_descending(old(v)@),
    ensures
        strictly_descending(final(v)@),
        forall|y: i64| final(v)@.contains(y) <==> (old(v)@.contains(y) || y == x),
{
    let mut i: usize = 0;
    while i < v.len() && v[i] > x
        invariant
            i <= v@.len(),
            forall|j: int| 0 <= j < i ==> v@[j] > x,
        decreases v@.len() - i,
    {
        i = i + 1;
    }
    if i < v.len() && v[i] == x {
        assert(v@[i as int] == x);
        assert(v@.contains(x));
        assert(forall|y: i64| v@.contains(y) <==> (old(v)@.contains(y) || y == x));
        return;
    }
    let ghost before = v@;
    assert(before == old(v)@);
    assert(forall|j: int| i <= j < before.len() ==> before[j] < x) by {
        assert forall|j: int| i <= j < before.len() implies before[j] < x by {
            if j > i {
                assert(before[i as int] > before[j]);
            }
        }
    }
    v.insert(i, x);
    assert(v@ =~= before.take(i as int).push(x) + before.skip(i as int));
    assert forall|a: int, b: int| 0 <= a < b < v@.len() implies v@[a] > v@[b] by {
        if b < i {
        } else if a < i && b == i {
        } else if a < i {
            assert(v@[b] == before[b - 1]);
        } else if a == i {
            assert(v@[b] == before[b - 1]);
        } else {
            assert(v@[a] == before[a - 1]);
            assert(v@[b] == before[b - 1]);
        }
    }
    proof {
        lemma_insert_contains(before, i as int, x);
    }
    assert(forall|y: i64| v@.contains(y) <==> (old(v)@.contains(y) || y == x));
}

/// Inserting `x` adds exactly `x` to what a sequence contains.
proof fn lemma_insert_contains(s: Seq<i64>, i: int, x: i64)
    requires
        0 <= i <= s.len(),
    ensures
        forall|y: i64| s.insert(i, x).contains(y) <==> (s.contains(y) || y == x),
{
    let t = s.insert(i, x);
    assert forall|y: i64| t.contains(y) <==> (s.contains(y) || y == x) by {
        if t.contains(y) {
            let k = choose|k: int| 0 <= k < t.len() && t[k] == y;
            if k < i {
                assert(s[k] == y);
            } else if k > i {
                assert(s[k - 1] == y);
            }
        }
        if s.contains(y) {
            let k = choose|k: int| 0 <= k < s.len() && s[k] == y;
            if k < i {
                assert(t[k] == y);
            } else {
                assert(t[k + 1] == y);
            }
        }
        if y == x {
            assert(t[i] == x);
        }
    }
}

/// Records the value of a finished run of digits, unless it overflowed.
fn close_run(
    r: &mut Vec<i64>,
    acc: i64,
    over: bool,
    clamp: bool,
    Ghost(done): Ghost<Seq<Seq<char>>>,
    Ghost(cur): Ghost<Seq<char>>,
)
    requires
        strictly_descending(old(r)@),
        !over ==> acc == decimal_value(cur),
        over ==> decimal_value(cur) > i64::MAX,
        forall|y: i64|
            old(r)@.contains(y) <==> run_numbers(done).map_values(|m: int| adjusted(m, clamp)).contains(
                y as int,
            ),
    ensures
        strictly_descending(final(r)@),
        forall|y: i64|
            final(r)@.contains(y) <==> run_numbers(done.push(cur)).map_values(
                |m: int| adjusted(m, clamp),
            ).contains(y as int),
{
    let ghost old_nums = run_numbers(done).map_values(|m: int| adjusted(m, clamp));
    let ghost nd = done.push(cur);
    assert(nd.drop_last() =~= done);
    assert(nd.last() == cur);
    if !over {
        let v = if clamp && acc > 1440 {
            1440
        } else {
            acc
        };
        insert_descending(r, v);
        assert(run_numbers(nd) == run_numbers(done).push(decimal_value(cur) as int));
        let ghost new_nums = run_numbers(nd).map_values(|m: int| adjusted(m, clamp));
        assert(new_nums =~= old_nums.push(v as int));
        assert forall|y: i64| final(r)@.contains(y) <==> new_nums.contains(y as int) by {
            if new_nums.contains(y as int) {
                let k = choose|k: int| 0 <= k < new_nums.len() && new_nums[k] == y as int;
                if k < old_nums.len() {
                    assert(old_nums[k] == y as int);
                    assert(old_nums.contains(y as int));
                }
            }
            if old_nums.contains(y as int) {
                let k = choose|k: int| 0 <= k < old_nums.len() && old_nums[k] == y as int;
                assert(new_nums[k] == y as int);
            }
            if y == v {
                assert(new_nums[old_nums.len() as int] == y as int);
            }
        }
    } else {
        assert(run_numbers(nd) == run_numbers(done));
    }
}

/// Shared scanner of `parse_reminders` and `parse_minutes_csv`.
fn collect_numbers(cs: &Vec<char>, clamp: bool) -> (r: Vec<i64>)
    ensures
        strictly_descending(r@),
        forall|y: i64|
            r@.contains(y) <==> run_numbers(digit_runs(cs@)).map_values(
                |m: int| adjusted(m, clamp),
            ).contains(y as int),
{
    let mut r: Vec<i64> = Vec::new();
    let mut acc: i64 = 0;
    let mut over = false;
    let mut in_run = false;
    let ghost mut done: Seq<Seq<char>> = Seq::empty();
    let ghost mut cur: Seq<char> = Seq::empty();
    let mut i: usize = 0;
    assert(cs@.take(0) =~= Seq::<char>::empty());
    while i < cs.len()
        invariant
            i <= cs@.len(),
            digit_runs_acc(cs@.take(i as int)) == (done, cur),
            in_run == (cur.len() > 0),
            all_digits(cur),
            !over ==> acc == decimal_value(cur),
            over ==> decimal_value(cur) > i64::MAX,
            strictly_descending(r@),
            forall|y: i64|
                r@.contains(y) <==> run_numbers(done).map_values(|m: int| adjusted(m, clamp)).contains(
                    y as int,
                ),
        decreases cs@.len() - i,
    {
        let c = cs[i];
        assert(cs@.take(i + 1).drop_last() =~= cs@.take(i as int));
        assert(cs@.take(i + 1).last() == c);
        if char_is_digit(c) {
            let d = (c as u32 - 48) as i64;
            let ghost nc = cur.push(c);
            assert(nc.drop_last() =~= cur);
            assert(all_digits(nc));
            if !over {
                if acc > (i64::MAX - d) / 10 {
                    over = true;
                } else {
                    acc = acc * 10 + d;
                }
            }
            proof {
                cur = nc;
            }
            in_run = true;
        } else {
            if in_run {
                close_run(&mut r, acc, over, clamp, Ghost(done), Ghost(cur));
                proof {
                    done = done.push(cur);
                }
            }
            proof {
                cur = Seq::empty();
            }
            acc = 0;
            over = false;
            in_run = false;
        }
        i = i + 1;
    }
    assert(cs@.take(cs@.len() as int) =~= cs@);
    if in_run {
        close_run(&mut r, acc, over, clamp, Ghost(done), Ghost(cur));
    }
    r
}

/// Reads a list of minutes such as `"10,2"` or `"10 2"`: every run of ASCII
/// digits that fits in an `i64` is a value, whatever separates the runs; the
/// values come out largest first, each once.
pub fn parse_reminders(s: &str) -> (r: Vec<i64>)
    ensures
        strictly_descending(r@),
        forall|y: i64| r@.contains(y) <==> listed_numbers(s@).contains(y as int),
        r@ == descending_of(listed_numbers(s@)),
{
    let cs = chars_of(s);
    let r = collect_numbers(&cs, false);
    proof {
        let nums = listed_numbers(s@);
        assert(nums.map_values(|m: int| adjusted(m, false)) =~= nums);
        lemma_descending_of(r@, nums);
    }
    r
}

/// The same list as `parse_reminders`, with every value clamped to
/// `0..=1440` before sorting and removing repeats.
pub fn parse_minutes_csv(s: &str) -> (r: Vec<i64>)
    ensures
        strictly_descending(r@),
        forall|y: i64|
            r@.contains(y) <==> listed_numbers(s@).map_values(|m: int| clamp_minutes(m)).contains(
                y as int,
            ),
        r@ == descending_of(listed_numbers(s@).map_values(|m: int| clamp_minutes(m))),
{
    let cs = chars_of(s);
    let r = collect_numbers(&cs, true);
    proof {
        let nums = listed_numbers(s@);
        assert(nums.map_values(|m: int| adjusted(m, true)) =~= nums.map_values(
            |m: int| clamp_minutes(m),
        ));
        lemma_descending_of(r@, nums.map_values(|m: int| clamp_minutes(m)));
    }
    r
}

} // verus!
