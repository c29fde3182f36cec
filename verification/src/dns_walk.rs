use vstd::prelude::*;
use vstd::set_lib::{lemma_int_range, lemma_len_subset, set_int_range};
use crate::dns::{Ending, NameStep, be16, dns_report, follow, name_step, name_walk, records_report, walk_fuel};

verus! {

/// The window `msg[x..y]` that following a name from `msg[a..b]` looks at after `i`
/// steps, or `None` when one of those steps ended the walk.
pub open spec fn walk_window(msg: Seq<u8>, e: u8, a: int, b: int, i: nat) -> Option<(int, int)>
    decreases i,
{
    if i == 0 {
        Some((a, b))
    } else {
        match name_step(msg, e, a, b).1 {
            NameStep::Next(a2, b2) => walk_window(msg, e, a2, b2, (i - 1) as nat),
            _ => None,
        }
    }
}

/// Every window of a walk lies inside the message.
proof fn lemma_window_inside(msg: Seq<u8>, e: u8, a: int, b: int, i: nat)
    requires
        0 <= a <= b <= msg.len(),
    ensures
        walk_window(msg, e, a, b, i) matches Some((x, y)) ==> 0 <= x <= y <= msg.len(),
    decreases i,
{
    if i > 0 {
        if let NameStep::Next(a2, b2) = name_step(msg, e, a, b).1 {
            lemma_window_inside(msg, e, a2, b2, (i - 1) as nat);
        }
    }
}

/// Taking `i` steps and then `j` is taking `i + j`.
proof fn lemma_window_compose(msg: Seq<u8>, e: u8, a: int, b: int, i: nat, j: nat)
    ensures
        walk_window(msg, e, a, b, i + j) == match walk_window(msg, e, a, b, i) {
            Some((x, y)) => walk_window(msg, e, x, y, j),
            None => None,
        },
    decreases i,
{
    if i > 0 {
        if let NameStep::Next(a2, b2) = name_step(msg, e, a, b).1 {
            lemma_window_compose(msg, e, a2, b2, (i - 1) as nat, j);
            assert((i + j - 1) as nat == ((i - 1) as nat + j) as nat);
        }
    }
}

/// A walk that still has a window after `k` steps had one after each earlier step.
proof fn lemma_window_earlier(msg: Seq<u8>, e: u8, a: int, b: int, i: nat, k: nat)
    requires
        i <= k,
        walk_window(msg, e, a, b, k) is Some,
    ensures
        walk_window(msg, e, a, b, i) is Some,
{
    lemma_window_compose(msg, e, a, b, i, (k - i) as nat);
    assert(i + (k - i) as nat == k);
}

/// A walk that still has a window when its fuel runs out aborts.
proof fn lemma_open_walk_aborts(msg: Seq<u8>, e: u8, a: int, b: int, f: nat)
    requires
        walk_window(msg, e, a, b, f) is Some,
    ensures
        name_walk(msg, e, a, b, f).1 == Ending::Aborted,
    decreases f,
{
    if f > 0 {
        if let NameStep::Next(a2, b2) = name_step(msg, e, a, b).1 {
            lemma_open_walk_aborts(msg, e, a2, b2, (f - 1) as nat);
        }
    }
}

/// A walk that ends within `k` steps ends the same way with any fuel from `k` on.
proof fn lemma_closed_walk_stable(msg: Seq<u8>, e: u8, a: int, b: int, k: nat, f: nat)
    requires
        walk_window(msg, e, a, b, k) is None,
        k <= f,
    ensures
        name_walk(msg, e, a, b, f).1 == name_walk(msg, e, a, b, k).1,
    decreases k,
{
    if let NameStep::Next(a2, b2) = name_step(msg, e, a, b).1 {
        lemma_closed_walk_stable(msg, e, a2, b2, (k - 1) as nat, (f - 1) as nat);
    }
}

/// A walk that comes back to a window it saw has a window after any number of steps.
proof fn lemma_cycle_never_ends(msg: Seq<u8>, e: u8, a: int, b: int, i: nat, j: nat, k: nat)
    requires
        i < j,
        walk_window(msg, e, a, b, j) is Some,
        walk_window(msg, e, a, b, i) == walk_window(msg, e, a, b, j),
    ensures
        walk_window(msg, e, a, b, k) is Some,
    decreases k,
{
    if k <= j {
        lemma_window_earlier(msg, e, a, b, k, j);
    } else {
        let (x, y) = walk_window(msg, e, a, b, j).unwrap();
        lemma_window_compose(msg, e, a, b, j, (k - j) as nat);
        lemma_window_compose(msg, e, a, b, i, (k - j) as nat);
        assert(j + (k - j) as nat == k);
        lemma_cycle_never_ends(msg, e, a, b, i, j, (i + (k - j)) as nat);
    }
}

/// More numbers than there are values below `r`, all of them below `r`: two are equal.
proof fn lemma_pigeonhole(s: Seq<int>, r: int)
    requires
        0 <= r < s.len(),
        forall|i: int| 0 <= i < s.len() ==> 0 <= #[trigger] s[i] < r,
    ensures
        exists|i: int, j: int| 0 <= i < j < s.len() && s[i] == s[j],
{
    if s.no_duplicates() {
        s.unique_seq_to_set();
        lemma_int_range(0, r);
        assert(s.to_set().subset_of(set_int_range(0, r)));
        lemma_len_subset(s.to_set(), set_int_range(0, r));
        assert(false);
    } else {
        let (i, j) = choose|i: int, j: int|
            0 <= i < s.len() && 0 <= j < s.len() && i != j && s[i] == s[j];
        if i < j {
            assert(s[i] == s[j]);
        } else {
            assert(s[j] == s[i]);
        }
    }
}

/// A number for each window of a message of `n` bytes, different windows getting different
/// numbers below `(n + 1) * (n + 1)`.
spec fn window_code(n: int, w: (int, int)) -> int {
    w.0 * (n + 1) + w.1
}

proof fn lemma_window_code(n: int, w1: (int, int), w2: (int, int))
    requires
        0 <= n,
        0 <= w1.0 <= n,
        0 <= w1.1 <= n,
        0 <= w2.0 <= n,
        0 <= w2.1 <= n,
    ensures
        0 <= window_code(n, w1) < (n + 1) * (n + 1),
        window_code(n, w1) == window_code(n, w2) ==> w1 == w2,
{
    let (x1, y1) = w1;
    let (x2, y2) = w2;
    assert(0 <= x1 * (n + 1) + y1 < (n + 1) * (n + 1)) by (nonlinear_arith)
        requires
            0 <= x1 <= n,
            0 <= y1 <= n,
    ;
    if x1 < x2 {
        assert(x1 * (n + 1) + y1 < x2 * (n + 1) + y2) by (nonlinear_arith)
            requires
                x1 < x2,
                0 <= y1 <= n,
                0 <= y2,
        ;
    } else if x2 < x1 {
        assert(x2 * (n + 1) + y2 < x1 * (n + 1) + y1) by (nonlinear_arith)
            requires
                x2 < x1,
                0 <= y2 <= n,
                0 <= y1,
        ;
    }
}

/// The fuel that describing a message gives a walk is enough: following a name from any
/// window of the message ends the same way whatever larger fuel it is given. A walk that
/// has not ended when that fuel runs out has come back to a window it saw, and never ends:
/// the recursion that it stands for runs until the stack is exhausted.
pub proof fn lemma_walk_fuel_suffices(msg: Seq<u8>, e: u8, a: int, b: int, f: nat)
    requires
        0 <= a <= b <= msg.len(),
        walk_fuel(msg.len()) <= f,
    ensures
        name_walk(msg, e, a, b, f).1 == follow(msg, e, a, b).1,
{
    let n = msg.len() as int;
    let big = walk_fuel(msg.len());
    if walk_window(msg, e, a, b, big) is None {
        lemma_closed_walk_stable(msg, e, a, b, big, f);
        lemma_closed_walk_stable(msg, e, a, b, big, big);
    } else {
        let codes = Seq::new(
            (big + 1) as nat,
            |i: int| window_code(n, walk_window(msg, e, a, b, i as nat).unwrap()),
        );
        assert forall|i: int| 0 <= i < codes.len() implies 0 <= #[trigger] codes[i] < (n + 1) * (n
            + 1) by {
            lemma_window_earlier(msg, e, a, b, i as nat, big);
            lemma_window_inside(msg, e, a, b, i as nat);
            let w = walk_window(msg, e, a, b, i as nat).unwrap();
            lemma_window_code(n, w, w);
        }
        lemma_pigeonhole(codes, (n + 1) * (n + 1));
        let (i, j) = choose|i: int, j: int| 0 <= i < j < codes.len() && codes[i] == codes[j];
        lemma_window_earlier(msg, e, a, b, i as nat, big);
        lemma_window_earlier(msg, e, a, b, j as nat, big);
        lemma_window_inside(msg, e, a, b, i as nat);
        lemma_window_inside(msg, e, a, b, j as nat);
        lemma_window_code(
            n,
            walk_window(msg, e, a, b, i as nat).unwrap(),
            walk_window(msg, e, a, b, j as nat).unwrap(),
        );
        lemma_cycle_never_ends(msg, e, a, b, i as nat, j as nat, f);
        lemma_cycle_never_ends(msg, e, a, b, i as nat, j as nat, big);
        lemma_open_walk_aborts(msg, e, a, b, f);
        lemma_open_walk_aborts(msg, e, a, b, big);
    }
}

/// Following a name never gives control back to the description: a walk that does not
/// abort ends the process.
pub proof fn lemma_walk_ends_in_exit(msg: Seq<u8>, e: u8, a: int, b: int, f: nat)
    ensures
        name_walk(msg, e, a, b, f).1 == Ending::Aborted || name_walk(msg, e, a, b, f).1
            == Ending::Exited(256),
    decreases f,
{
    if f > 0 {
        if let NameStep::Next(a2, b2) = name_step(msg, e, a, b).1 {
            lemma_walk_ends_in_exit(msg, e, a2, b2, (f - 1) as nat);
        }
    }
}

/// A description never gets past the first question or record it looks at: once it starts
/// following a name, it ends the process or aborts. It completes only when the header
/// stops it (a nonzero response code, or an end marker hit before a record) or when the
/// message announces neither questions nor records.
pub proof fn lemma_description_stops_at_first_name(msg_len: nat, msg: Seq<u8>)
    ensures
        dns_report(msg_len, msg).1 == Ending::Completed ==> 12 <= msg_len <= msg.len(),
        dns_report(msg_len, msg).1 == Ending::Completed ==> msg[3] & 0x07u8 != 0 || be16(msg, 4)
            == 0,
{
    if 12 <= msg_len <= msg.len() && msg[3] & 0x07u8 == 0 && msg.len() + msg_len <= 255 {
        let e = (msg.len() + msg_len) as u8;
        lemma_walk_ends_in_exit(msg, e, 12, msg.len() as int, walk_fuel(msg.len()));
        let (ls, end) = records_report(msg, e);
        assert(dns_report(msg_len, msg).1 == end);
    }
}

} // verus!
