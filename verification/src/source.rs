//! The check a source file's name has to pass before it is read.

use vstd::prelude::*;

verus! {

/// The part of `name` after its last `.` is `bf`: the name is `bf` itself or
/// ends in `.bf`.
pub open spec fn ends_in_bf(name: Seq<char>) -> bool {
    let n = name.len() as int;
    &&& n >= 2
    &&& name[n - 2] == 'b'
    &&& name[n - 1] == 'f'
    &&& (n == 2 || name[n - 3] == '.')
}

/// Whether `file_name` carries the extension of a source file.
pub fn has_source_extension(file_name: &str) -> (b: bool)
    ensures
        b == ends_in_bf(file_name@),
{
    // the last three characters seen, oldest first
    let mut third: char = ' ';
    let mut second: char = ' ';
    let mut first: char = ' ';
    let mut seen: usize = 0;
    for c in it: file_name.chars()
        invariant
            it.seq() == file_name@,
            seen <= 3,
            seen == (if it.index() < 3 { it.index() } else { 3 }),
            seen >= 1 ==> first == file_name@[it.index() - 1],
            seen >= 2 ==> second == file_name@[it.index() - 2],
            seen >= 3 ==> third == file_name@[it.index() - 3],
    {
        third = second;
        second = first;
        first = c;
        if seen < 3 {
            seen += 1;
        }
    }
    seen >= 2 && second == 'b' && first == 'f' && (seen == 2 || third == '.')
}

} // verus!
