//! The listing of a tape's non-zero cells.

use vstd::prelude::*;

verus! {

/// The non-zero cells of `tape` as index-value pairs, in ascending index
/// order.
pub open spec fn nonzero_cells(tape: Seq<u8>) -> Seq<(usize, u8)>
    decreases tape.len(),
{
    if tape.len() == 0 {
        Seq::empty()
    } else if tape.last() != 0 {
        nonzero_cells(tape.drop_last()).push(((tape.len() - 1) as usize, tape.last()))
    } else {
        nonzero_cells(tape.drop_last())
    }
}

/// Lists every non-zero cell of the tape with its index, lowest index first.
pub fn memory_dump(data_array: &[u8; 30000]) -> (cells: Vec<(usize, u8)>)
    ensures
        cells@ == nonzero_cells(data_array@),
{
    let mut cells: Vec<(usize, u8)> = Vec::new();
    let mut i: usize = 0;
    assert(data_array@.take(0) =~= Seq::<u8>::empty());
    while i < 30000
        invariant
            i <= 30000,
            data_array@.len() == 30000,
            cells@ == nonzero_cells(data_array@.take(i as int)),
        decreases 30000 - i,
    {
        assert(data_array@.take(i + 1).drop_last() =~= data_array@.take(i as int));
        let byte = data_array[i];
        if byte != 0 {
            cells.push((i, byte));
        }
        i += 1;
    }
    assert(data_array@.take(30000) =~= data_array@);
    cells
}

/// Every listed cell is a non-zero cell of the tape, and the indices ascend
/// strictly.
pub proof fn lemma_dump_sound(tape: Seq<u8>)
    requires
        tape.len() <= usize::MAX,
    ensures
        forall|k: int|
            0 <= k < nonzero_cells(tape).len() ==> {
                let (i, v) = #[trigger] nonzero_cells(tape)[k];
                i < tape.len() && tape[i as int] == v && v != 0
            },
        forall|j: int, k: int|
            0 <= j < k < nonzero_cells(tape).len() ==> (#[trigger] nonzero_cells(tape)[j]).0 < (
            #[trigger] nonzero_cells(tape)[k]).0,
    decreases tape.len(),
{
    if tape.len() > 0 {
        let init = tape.drop_last();
        let rest = nonzero_cells(init);
        let all = nonzero_cells(tape);
        lemma_dump_sound(init);
        assert forall|k: int| 0 <= k < all.len() implies {
            let (i, v) = #[trigger] all[k];
            i < tape.len() && tape[i as int] == v && v != 0
        } by {
            if k < rest.len() {
                let (i, v) = rest[k];
                assert(all[k] == rest[k]);
                assert(init[i as int] == tape[i as int]);
            }
        }
        assert forall|j: int, k: int| 0 <= j < k < all.len() implies (#[trigger] all[j]).0 < (
        #[trigger] all[k]).0 by {
            assert(all[j] == rest[j]);
            if k < rest.len() {
                assert(all[k] == rest[k]);
            }
        }
    }
}

/// Every non-zero cell of the tape is listed.
pub proof fn lemma_dump_complete(tape: Seq<u8>, i: int)
    requires
        tape.len() <= usize::MAX,
        0 <= i < tape.len(),
        tape[i] != 0,
    ensures
        nonzero_cells(tape).contains((i as usize, tape[i])),
    decreases tape.len(),
{
    let rest = nonzero_cells(tape.drop_last());
    if i == tape.len() - 1 {
        let all = nonzero_cells(tape);
        assert(all[all.len() - 1] == (i as usize, tape[i]));
    } else {
        lemma_dump_complete(tape.drop_last(), i);
        let k = choose|k: int| 0 <= k < rest.len() && rest[k] == (i as usize, tape[i]);
        assert(nonzero_cells(tape)[k] == (i as usize, tape[i]));
    }
}

/// The decimal digit for `d`.
pub open spec fn digit_char(d: int) -> char {
    if d == 0 {
        '0'
    } else if d == 1 {
        '1'
    } else if d == 2 {
        '2'
    } else if d == 3 {
        '3'
    } else if d == 4 {
        '4'
    } else if d == 5 {
        '5'
    } else if d == 6 {
        '6'
    } else if d == 7 {
        '7'
    } else if d == 8 {
        '8'
    } else {
        '9'
    }
}

/// `n` in decimal, without leading zeros.
pub open spec fn decimal(n: nat) -> Seq<char>
    decreases n,
{
    if n < 10 {
        seq![digit_char(n as int)]
    } else {
        decimal(n / 10).push(digit_char((n % 10) as int))
    }
}

/// The listing's line for one cell: the index in square brackets, a colon, a
/// space, the value.
pub open spec fn cell_line(index: nat, value: nat) -> Seq<char> {
    seq!['['] + decimal(index) + seq![']', ':', ' '] + decimal(value)
}

/// The text of one decimal digit.
pub fn digit_text(d: usize) -> (text: &'static str)
    requires
        d < 10,
    ensures
        text@ == seq![digit_char(d as int)],
{
    proof {
        reveal_strlit("0");
        reveal_strlit("1");
        reveal_strlit("2");
        reveal_strlit("3");
        reveal_strlit("4");
        reveal_strlit("5");
        reveal_strlit("6");
        reveal_strlit("7");
        reveal_strlit("8");
        reveal_strlit("9");
    }
    let text = match d {
        0 => "0",
        1 => "1",
        2 => "2",
        3 => "3",
        4 => "4",
        5 => "5",
        6 => "6",
        7 => "7",
        8 => "8",
        _ => "9",
    };
    assert(text@ =~= seq![digit_char(d as int)]);
    text
}

/// Appends `n` in decimal to `text`.
pub fn push_decimal(text: &mut String, n: usize)
    ensures
        final(text)@ == old(text)@ + decimal(n as nat),
    decreases n,
{
    if n >= 10 {
        push_decimal(text, n / 10);
    }
    text.append(digit_text(n % 10));
    assert(text@ =~= old(text)@ + decimal(n as nat));
}

/// One line of the listing.
pub fn format_cell(index: usize, value: u8) -> (line: String)
    ensures
        line@ == cell_line(index as nat, value as nat),
{
    proof {
        reveal_strlit("[");
        reveal_strlit("]: ");
    }
    let mut line = "[".to_owned();
    push_decimal(&mut line, index);
    line.append("]: ");
    let wide: usize = value.into();
    push_decimal(&mut line, wide);
    assert(line@ =~= cell_line(index as nat, value as nat));
    line
}

} // verus!
