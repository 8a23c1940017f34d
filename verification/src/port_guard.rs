//! Which processes to stop so that a simulator's ports are free.
use vstd::prelude::*;
use crate::split::{split_whitespace, words_of};
use crate::text::{parse_in_range, parse_u32};

verus! {

/// The process ids to stop, from the whitespace-separated words `lsof -ti`
/// printed: every word that is a `u32`, in order, except this process's own
/// id.
pub open spec fn pids_to_stop(words: Seq<Seq<char>>, own_pid: u32) -> Seq<u32>
    decreases words.len(),
{
    if words.len() == 0 {
        Seq::empty()
    } else {
        let rest = pids_to_stop(words.drop_last(), own_pid);
        match parse_in_range(words.last(), false, 0, u32::MAX as int) {
            Some(v) => if v != own_pid as int { rest.push(v as u32) } else { rest },
            None => rest,
        }
    }
}

/// The processes holding a port, as `lsof -ti TCP:{port}` listed them,
/// without this process (see `pids_to_stop`).
pub fn pids_to_release(lsof_output: &str, own_pid: u32) -> (r: Vec<u32>)
    ensures
        r@ == pids_to_stop(words_of(lsof_output@), own_pid),
{
    let words = split_whitespace(lsof_output);
    let ghost wv = crate::data::views(words@);
    let mut out: Vec<u32> = Vec::new();
    let mut i: usize = 0;
    assert(wv.take(0) =~= Seq::<Seq<char>>::empty());
    while i < words.len()
        invariant
            wv == crate::data::views(words@),
            wv == words_of(lsof_output@),
            i <= words.len(),
            out@ == pids_to_stop(wv.take(i as int), own_pid),
        decreases words.len() - i,
    {
        assert(wv.take(i + 1).drop_last() =~= wv.take(i as int));
        assert(wv.take(i + 1).last() == words@[i as int]@);
        match parse_u32(words[i].as_str()) {
            Some(pid) => {
                if pid != own_pid {
                    out.push(pid);
                }
            },
            None => {},
        }
        i = i + 1;
    }
    assert(wv.take(words.len() as int) =~= wv);
    out
}

} // verus!
