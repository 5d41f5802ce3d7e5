use vstd::prelude::*;
use vstd::string::StrSliceExecFns;

verus! {

/// Splits off the first character of a string slice.
pub fn str_get_head_tail(seq: &str) -> (r: (Option<char>, &str))
    ensures
        seq@.len() == 0 ==> r.0 is None && r.1@ == seq@,
        seq@.len() > 0 ==> r.0 == Some(seq@[0]) && r.1@ == seq@.drop_first(),
{
    let n = seq.unicode_len();
    if n == 0 {
        (None, seq)
    } else {
        let head = seq.get_char(0);
        let tail = seq.substring_char(1, n);
        assert(tail@ =~= seq@.drop_first());
        (Some(head), tail)
    }
}

/// Splits off the first character and also reports the character after it.
pub fn str_get_head_tail_follow(seq: &str) -> (r: (Option<char>, &str, Option<char>))
    ensures
        seq@.len() == 0 ==> r.0 is None && r.1@ == seq@,
        seq@.len() > 0 ==> r.0 == Some(seq@[0]) && r.1@ == seq@.drop_first(),
        seq@.len() > 1 ==> r.2 == Some(seq@[1]),
        seq@.len() <= 1 ==> r.2 is None,
{
    let (head, tail) = str_get_head_tail(seq);
    let (follow, _) = str_get_head_tail(tail);
    (head, tail, follow)
}

} // verus!
