//! The answer of a small demonstration server: whatever it reads, it writes lines of letters.
use vstd::prelude::*;
use crate::event::EventControl;

verus! {

/// The letter with number `i`, counting from `A` and starting over after `Z`.
pub open spec fn letter(i: int) -> u8 {
    (65 + i % 26) as u8
}

/// The letters with the numbers from one up to, but not including, `end`. Each `A` starts a new
/// line.
pub open spec fn letters(end: nat) -> Seq<u8>
    decreases end,
{
    if end <= 1 {
        Seq::empty()
    } else {
        let last = (end - 1) as nat;
        let line = if last % 26 == 0 {
            letters(last).push(10u8)
        } else {
            letters(last)
        };
        line.push(letter(last as int))
    }
}

/// The letters with the numbers from one up to, but not including, `end`, and a line end.
pub fn sample_payload(end: u32) -> (data: Vec<u8>)
    ensures
        data@ == letters(end as nat).push(10u8),
{
    let mut data: Vec<u8> = Vec::new();
    let mut i: u32 = 1;
    while i < end
        invariant
            1 <= i,
            i <= end || end == 0 && i == 1,
            data@ == letters(i as nat),
        decreases end - i,
    {
        if i % 26 == 0 {
            data.push(10);
        }
        data.push((65 + i % 26) as u8);
        i = i + 1;
    }
    assert(data@ == letters(end as nat));
    data.push(10);
    data
}

/// Whether to go on reading after a read with this outcome: the number of bytes read, or nothing
/// where the read failed.
pub fn after_read(outcome: Option<usize>) -> (control: EventControl)
    ensures
        control == (if outcome is Some && outcome->0 > 0 {
            EventControl::KEEP
        } else {
            EventControl::DELETE
        }),
{
    match outcome {
        Some(read) => {
            if read == 0 {
                EventControl::DELETE
            } else {
                EventControl::KEEP
            }
        },
        None => EventControl::DELETE,
    }
}

/// The answer is made of lines. With each byte numbered from two on, every byte whose number is a
/// multiple of twenty-seven ends a line, and the bytes behind it are the letters from `A` to `Z` in
/// order. So the first line starts with `B`. Each letter counts one towards `end`.
pub proof fn law_letters_run_through_the_alphabet(end: nat)
    ensures
        end == 0 ==> letters(end).len() == 0,
        end >= 1 ==> letters(end).len() == (end - 1) + (end - 1) / 26,
        forall|at: int|
            0 <= at < letters(end).len() ==> #[trigger] letters(end)[at] == (if (at + 2) % 27
                == 0 {
                10
            } else {
                64 + (at + 2) % 27
            }),
    decreases end,
{
    if end > 1 {
        law_letters_run_through_the_alphabet((end - 1) as nat);
    }
}

} // verus!
