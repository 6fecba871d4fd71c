//! Text helpers for the operator's console: colored text, aligned usage
//! lines, and the lines that show an error with its causes.

use vstd::prelude::*;

verus! {

/// `text` between the escape that selects the color `code` and the escape
/// that resets it.
pub open spec fn painted(code: Seq<char>, text: Seq<char>) -> Seq<char> {
    seq!['\x1b', '['] + code + seq!['m'] + text + seq!['\x1b', '[', '0', 'm']
}

/// `n` spaces.
pub open spec fn spaces(n: nat) -> Seq<char> {
    Seq::new(n, |i: int| ' ')
}

/// The column at which a usage line's description starts, counted after its
/// two leading spaces.
pub const USAGE_WIDTH: usize = 23;

/// How many spaces pad a usage of `len` bytes: up to the description column,
/// none when it is already reached.
pub open spec fn usage_padding(len: nat) -> nat {
    if len < USAGE_WIDTH {
        (USAGE_WIDTH - len) as nat
    } else {
        0
    }
}

fn paint(start: &str, text: &str) -> (r: String)
    ensures
        r@ == start@ + text@ + seq!['\x1b', '[', '0', 'm'],
{
    let mut r = String::from_str(start);
    r.append(text);
    r.append("\x1b[0m");
    proof {
        reveal_strlit("\x1b[0m");
    }
    r
}

/// `text` in red.
pub fn red(text: &str) -> (r: String)
    ensures
        r@ == painted(seq!['3', '1'], text@),
{
    proof {
        reveal_strlit("\x1b[31m");
    }
    let r = paint("\x1b[31m", text);
    assert(r@ =~= painted(seq!['3', '1'], text@));
    r
}

/// `text` in green.
pub fn green(text: &str) -> (r: String)
    ensures
        r@ == painted(seq!['3', '2'], text@),
{
    proof {
        reveal_strlit("\x1b[32m");
    }
    let r = paint("\x1b[32m", text);
    assert(r@ =~= painted(seq!['3', '2'], text@));
    r
}

/// `text` in yellow.
pub fn yellow(text: &str) -> (r: String)
    ensures
        r@ == painted(seq!['3', '3'], text@),
{
    proof {
        reveal_strlit("\x1b[33m");
    }
    let r = paint("\x1b[33m", text);
    assert(r@ =~= painted(seq!['3', '3'], text@));
    r
}

/// `text` in blue.
pub fn blue(text: &str) -> (r: String)
    ensures
        r@ == painted(seq!['3', '4'], text@),
{
    proof {
        reveal_strlit("\x1b[34m");
    }
    let r = paint("\x1b[34m", text);
    assert(r@ =~= painted(seq!['3', '4'], text@));
    r
}

/// `text` in magenta.
pub fn magenta(text: &str) -> (r: String)
    ensures
        r@ == painted(seq!['3', '5'], text@),
{
    proof {
        reveal_strlit("\x1b[35m");
    }
    let r = paint("\x1b[35m", text);
    assert(r@ =~= painted(seq!['3', '5'], text@));
    r
}

/// `text` in cyan.
pub fn cyan(text: &str) -> (r: String)
    ensures
        r@ == painted(seq!['3', '6'], text@),
{
    proof {
        reveal_strlit("\x1b[36m");
    }
    let r = paint("\x1b[36m", text);
    assert(r@ =~= painted(seq!['3', '6'], text@));
    r
}

/// `text` in gray.
pub fn gray(text: &str) -> (r: String)
    ensures
        r@ == painted(seq!['3', '7'], text@),
{
    proof {
        reveal_strlit("\x1b[37m");
    }
    let r = paint("\x1b[37m", text);
    assert(r@ =~= painted(seq!['3', '7'], text@));
    r
}

/// `text` in black.
pub fn black(text: &str) -> (r: String)
    ensures
        r@ == painted(seq!['3', '0'], text@),
{
    proof {
        reveal_strlit("\x1b[30m");
    }
    let r = paint("\x1b[30m", text);
    assert(r@ =~= painted(seq!['3', '0'], text@));
    r
}

/// `s` followed by `n` spaces.
fn pad(s: String, n: usize) -> (r: String)
    ensures
        r@ == s@ + spaces(n as nat),
{
    let mut r = s;
    let mut i: usize = 0;
    while i < n
        invariant
            i <= n,
            r@ == s@ + spaces(i as nat),
        decreases n - i,
    {
        r.append(" ");
        proof {
            reveal_strlit(" ");
            assert(" "@ =~= seq![' ']);
        }
        i = i + 1;
        assert(r@ =~= s@ + spaces(i as nat));
    }
    r
}

/// A usage line: two spaces, the command `c`, spaces up to the description
/// column, and the description `d`.
pub open spec fn usage_line(c: &str, d: &str) -> Seq<char> {
    seq![' ', ' '] + c@ + spaces(usage_padding(c.len() as nat)) + d@
}

/// The usage line of the command `c` described by `d`.
pub fn tidy_usage(c: &str, d: &str) -> (r: String)
    ensures
        r@ == usage_line(c, d),
{
    let n = c.len();
    let fill: usize = if n < USAGE_WIDTH { USAGE_WIDTH - n } else { 0 };
    let mut r = String::from_str("  ");
    proof {
        reveal_strlit("  ");
        assert("  "@ =~= seq![' ', ' ']);
    }
    r.append(c);
    let mut r = pad(r, fill);
    r.append(d);
    assert(r@ =~= seq![' ', ' '] + c@ + spaces(usage_padding(c.len() as nat)) + d@);
    r
}

/// The lines that show an error: the deepest cause first, then each outer
/// one on a line that points back to it, ending with `msg`, what was being
/// done. `chain` holds the error and then its causes, outermost first.
pub open spec fn error_report(msg: Seq<char>, chain: Seq<Seq<char>>) -> Seq<Seq<char>>
    recommends
        chain.len() > 0,
{
    let all = seq![msg] + chain;
    let n = all.len();
    Seq::new(
        n,
        |i: int|
            if i == 0 {
                all[n - 1]
            } else if chain.len() == 1 {
                seq![' ', '-', '>', ' '] + all[n - 1 - i]
            } else {
                spaces(i as nat) + seq![' ', '-', '>', ' '] + all[n - 1 - i]
            },
    )
}

/// Line `i` of a report on a chain of `n` errors, showing `item`.
fn report_line(item: &str, i: usize, n: usize) -> (r: String)
    ensures
        r@ == if i == 0 {
            item@
        } else if n == 1 {
            seq![' ', '-', '>', ' '] + item@
        } else {
            spaces(i as nat) + seq![' ', '-', '>', ' '] + item@
        },
{
    proof {
        reveal_strlit(" -> ");
        assert(" -> "@ =~= seq![' ', '-', '>', ' ']);
    }
    if i == 0 {
        String::from_str(item)
    } else if n == 1 {
        String::from_str(" -> ").concat(item)
    } else {
        pad(String::new(), i).concat(" -> ").concat(item)
    }
}

/// The lines that show an error, as [`error_report`] describes them.
pub fn error_lines(msg: &str, chain: &Vec<String>) -> (r: Vec<String>)
    requires
        chain@.len() > 0,
    ensures
        r@.len() == chain@.len() + 1,
        forall|i: int|
            0 <= i < r@.len() ==> (#[trigger] r@[i])@ == error_report(
                msg@,
                chain@.map_values(|s: String| s@),
            )[i],
{
    let ghost views = chain@.map_values(|s: String| s@);
    let ghost all = seq![msg@] + views;
    let ghost want = error_report(msg@, views);
    let n: usize = chain.len();
    let mut r: Vec<String> = Vec::new();
    let mut i: usize = 0;
    while i < n
        invariant
            n == chain@.len(),
            n > 0,
            i <= n,
            views == chain@.map_values(|s: String| s@),
            all == seq![msg@] + views,
            want == error_report(msg@, views),
            r@.len() == i,
            forall|j: int| 0 <= j < i ==> (#[trigger] r@[j])@ == want[j],
        decreases n - i,
    {
        let item: &str = chain[n - 1 - i].as_str();
        assert(item@ == all[n - i]);
        let line = report_line(item, i, n);
        assert(line@ =~= want[i as int]);
        r.push(line);
        i = i + 1;
    }
    assert(msg@ == all[0]);
    let line = report_line(msg, n, n);
    assert(line@ =~= want[n as int]);
    r.push(line);
    r
}

} // verus!
