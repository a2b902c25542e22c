//! Reversing a block of lines.

use vstd::prelude::*;

verus! {

/// Returns the lines in reverse order.
pub fn reverse_lines(lines: Vec<String>) -> (r: Vec<String>)
    ensures
        r@.len() == lines@.len(),
        forall|i: int| 0 <= i < r@.len() ==> r@[i] == lines@[lines@.len() - 1 - i],
{
    let ghost input = lines@;
    let mut rest = lines;
    let mut out: Vec<String> = Vec::new();
    proof {
        assert(input.take(input.len() as int) =~= input);
    }
    while rest.len() > 0
        invariant
            rest@ == input.take(input.len() - out@.len()),
            out@.len() <= input.len(),
            forall|i: int| 0 <= i < out@.len() ==> out@[i] == input[input.len() - 1 - i],
        decreases rest@.len(),
    {
        proof {
            assert(rest@.drop_last() =~= input.take(input.len() - (out@.len() + 1)));
        }
        let line = rest.pop().unwrap();
        out.push(line);
    }
    out
}

} // verus!
