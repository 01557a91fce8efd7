use vstd::prelude::*;

verus! {

/// The host part of a `host:port` socket-address string: the longest prefix
/// free of `':'`. An address without a colon is returned whole.
pub fn host_part(addr: &str) -> (r: String)
    ensures
        r@.len() <= addr@.len(),
        r@ == addr@.take(r@.len() as int),
        forall|j: int| 0 <= j < r@.len() ==> addr@[j] != ':',
        r@.len() < addr@.len() ==> addr@[r@.len() as int] == ':',
{
    let len = addr.unicode_len();
    let mut i: usize = 0;
    while i < len
        invariant
            len == addr@.len(),
            0 <= i <= len,
            forall|j: int| 0 <= j < i ==> addr@[j] != ':',
        decreases len - i,
    {
        if addr.get_char(i) == ':' {
            let host = addr.substring_char(0, i);
            return String::from_str(host);
        }
        i += 1;
    }
    proof {
        assert(addr@.take(len as int) =~= addr@);
    }
    String::from_str(addr)
}

} // verus!
