//! Plain-text report of the moves of a plan.
use vstd::prelude::*;

verus! {

pub open spec fn digit_char(d: nat) -> char {
    seq!['0', '1', '2', '3', '4', '5', '6', '7', '8', '9'][d as int]
}

/// Decimal digits of `n`, without leading zeros.
pub open spec fn decimal(n: nat) -> Seq<char>
    decreases n,
{
    if n < 10 {
        seq![digit_char(n)]
    } else {
        decimal(n / 10) + seq![digit_char(n % 10)]
    }
}

/// One report line: ` <label> <from> => <to>` and a newline.
pub open spec fn move_line(label: Seq<char>, from: u8, to: u8) -> Seq<char> {
    seq![' '] + label + seq![' '] + decimal(from as nat) + seq![' ', '=', '>', ' '] + decimal(to as nat) + seq!['\n']
}

/// The report lines of the first `n` moves of `to_move`.
pub open spec fn move_lines(label: Seq<char>, map: Seq<u8>, to_move: Seq<u8>, n: int) -> Seq<char>
    decreases n,
{
    if n <= 0 {
        Seq::empty()
    } else {
        move_lines(label, map, to_move, n - 1) + move_line(label, to_move[n - 1], map[to_move[n - 1] as int])
    }
}

fn digit_str(d: u8) -> (r: &'static str)
    requires
        d < 10,
    ensures
        r@ == seq![digit_char(d as nat)],
{
    proof {
        reveal_strlit("0");
        reveal_strlit("1");
        reveal_strlit("2");
        reveal_strlit("3");
        reveal_strlit("4");
        reveal_strlit("5");
        reveal_strlit("6");
        reveal_strlit("7");
        reveal_strlit("8");
        reveal_strlit("9");
    }
    let r = match d {
        0 => "0",
        1 => "1",
        2 => "2",
        3 => "3",
        4 => "4",
        5 => "5",
        6 => "6",
        7 => "7",
        8 => "8",
        _ => "9",
    };
    assert(r@ =~= seq![digit_char(d as nat)]);
    r
}

/// Appends the decimal digits of `n` to `acc`.
pub fn push_decimal(acc: &mut String, n: u8)
    ensures
        final(acc)@ == old(acc)@ + decimal(n as nat),
{
    if n >= 100 {
        acc.append(digit_str(n / 100));
        acc.append(digit_str((n / 10) % 10));
        acc.append(digit_str(n % 10));
        assert(decimal(n as nat) =~= decimal((n / 10) as nat) + seq![digit_char((n % 10) as nat)]);
        assert(decimal((n / 10) as nat) =~= decimal((n / 100) as nat) + seq![digit_char(((n / 10) % 10) as nat)]);
    } else if n >= 10 {
        acc.append(digit_str(n / 10));
        acc.append(digit_str(n % 10));
        assert(decimal(n as nat) =~= decimal((n / 10) as nat) + seq![digit_char((n % 10) as nat)]);
    } else {
        acc.append(digit_str(n));
    }
    assert(final(acc)@ =~= old(acc)@ + decimal(n as nat));
}

/// Appends one report line to `acc`.
pub fn push_move_line(acc: &mut String, label: &str, from: u8, to: u8)
    ensures
        final(acc)@ == old(acc)@ + move_line(label@, from, to),
{
    proof {
        reveal_strlit(" ");
        reveal_strlit(" => ");
        reveal_strlit("\n");
    }
    acc.append(" ");
    acc.append(label);
    acc.append(" ");
    push_decimal(acc, from);
    acc.append(" => ");
    push_decimal(acc, to);
    acc.append("\n");
    assert(final(acc)@ =~= old(acc)@ + move_line(label@, from, to));
}

/// The report lines of every move of `to_move`.
pub fn print_moves(label: &str, mapping: &Vec<u8>, to_move: &Vec<u8>) -> (r: String)
    requires
        forall|k: int| 0 <= k < to_move@.len() ==> (#[trigger] to_move@[k] as int) < mapping@.len(),
    ensures
        r@ == move_lines(label@, mapping@, to_move@, to_move@.len() as int),
{
    let mut acc = String::new();
    let mut k: usize = 0;
    while k < to_move.len()
        invariant
            k <= to_move@.len(),
            forall|q: int| 0 <= q < to_move@.len() ==> (#[trigger] to_move@[q] as int) < mapping@.len(),
            acc@ == move_lines(label@, mapping@, to_move@, k as int),
        decreases to_move.len() - k,
    {
        let e = to_move[k];
        let new_ix = mapping[e as usize];
        push_move_line(&mut acc, label, e, new_ix);
        k += 1;
    }
    acc
}

} // verus!
