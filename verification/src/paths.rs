//! Path splitting, verified over character sequences: a path's file name is
//! what follows its last `/`, and the extension is what follows the last `.`
//! of the file name, provided that `.` is not the name's first character.
use vstd::prelude::*;

verus! {

/// The index of the last occurrence of `c` in `s`, or -1 when `c` does not occur.
pub open spec fn last_pos_of(s: Seq<char>, c: char) -> int
    decreases s.len(),
{
    if s.len() == 0 {
        -1
    } else if s[s.len() - 1] == c {
        s.len() - 1
    } else {
        last_pos_of(s.drop_last(), c)
    }
}

/// The file name of a path: what follows the last `/`, or the whole path when
/// no `/` occurs.
pub open spec fn spec_file_name(p: Seq<char>) -> Seq<char> {
    p.subrange(last_pos_of(p, '/') + 1, p.len() as int)
}

/// The extension of a path: what follows the last `.` of its file name, when
/// that `.` exists and is not the name's first character.
pub open spec fn spec_extension(p: Seq<char>) -> Option<Seq<char>> {
    let name = spec_file_name(p);
    let j = last_pos_of(name, '.');
    if j <= 0 {
        None
    } else {
        Some(name.subrange(j + 1, name.len() as int))
    }
}

/// The index of the last occurrence of `c` in `s`, if one exists.
pub fn last_pos_char(s: &str, c: char) -> (r: Option<usize>)
    ensures
        match r {
            Some(k) => k < s@.len() && last_pos_of(s@, c) == k as int,
            None => last_pos_of(s@, c) == -1,
        },
{
    let n = s.unicode_len();
    let mut i: usize = n;
    proof {
        assert(s@.take(n as int) =~= s@);
    }
    while i > 0
        invariant
            i <= n,
            n == s@.len(),
            last_pos_of(s@, c) == last_pos_of(s@.take(i as int), c),
        decreases i,
    {
        i = i - 1;
        let ch = s.get_char(i);
        proof {
            assert(s@.take(i as int + 1).len() == i as int + 1);
            assert(s@.take(i as int + 1)[i as int] == s@[i as int]);
            assert(s@.take(i as int + 1).drop_last() =~= s@.take(i as int));
        }
        if ch == c {
            return Some(i);
        }
    }
    proof {
        assert(s@.take(0).len() == 0);
    }
    None
}

/// The file name of a path, per [`spec_file_name`].
pub fn path_file_name(path: &str) -> (r: String)
    ensures
        r@ == spec_file_name(path@),
{
    let n = path.unicode_len();
    match last_pos_char(path, '/') {
        Some(k) => path.substring_char(k + 1, n).to_owned(),
        None => path.to_owned(),
    }
}

/// The extension of a path, per [`spec_extension`].
pub fn path_extension(path: &str) -> (r: Option<String>)
    ensures
        r is Some <==> spec_extension(path@) is Some,
        r matches Some(e) ==> spec_extension(path@) == Some(e@),
{
    let name = path_file_name(path);
    let s = name.as_str();
    let n = s.unicode_len();
    match last_pos_char(s, '.') {
        Some(k) => {
            if k > 0 {
                Some(s.substring_char(k + 1, n).to_owned())
            } else {
                None
            }
        },
        None => None,
    }
}

} // verus!
