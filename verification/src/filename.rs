use vstd::prelude::*;

verus! {

/// A character that would let a client-supplied filename reach outside the
/// storage directory when joined onto a path.
pub open spec fn is_path_separator(c: char) -> bool {
    c == '/' || c == '\\'
}

/// A client-supplied filename is accepted only if it names a plain entry of
/// the storage directory: non-empty, free of path separators, and not the
/// current- or parent-directory segment.
pub open spec fn valid_filename(s: Seq<char>) -> bool {
    &&& s.len() > 0
    &&& (forall|i: int| 0 <= i < s.len() ==> !is_path_separator(s[i]))
    &&& s != seq!['.']
    &&& s != seq!['.', '.']
}

/// Decides whether a client-supplied filename may be used as a path
/// component of the storage directory.
pub fn validate_filename(name: &str) -> (r: bool)
    ensures
        r == valid_filename(name@),
{
    let len = name.unicode_len();
    if len == 0 {
        return false;
    }
    if len == 1 && name.get_char(0) == '.' {
        proof {
            assert(name@ =~= seq!['.']);
        }
        return false;
    }
    if len == 2 && name.get_char(0) == '.' && name.get_char(1) == '.' {
        proof {
            assert(name@ =~= seq!['.', '.']);
        }
        return false;
    }
    let mut i: usize = 0;
    while i < len
        invariant
            len == name@.len(),
            0 <= i <= len,
            forall|j: int| 0 <= j < i ==> !is_path_separator(name@[j]),
        decreases len - i,
    {
        let c = name.get_char(i);
        if c == '/' || c == '\\' {
            return false;
        }
        i += 1;
    }
    proof {
        if name@ == seq!['.'] {
            assert(name@.len() == 1);
            assert(name@[0] == '.');
        }
        if name@ == seq!['.', '.'] {
            assert(name@.len() == 2);
            assert(name@[0] == '.');
            assert(name@[1] == '.');
        }
    }
    true
}

} // verus!
