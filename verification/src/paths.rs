//! Byte-string path arithmetic.
//!
//! Fixture locations are handled as raw byte strings with `/` as the
//! separator. These helpers compute relative paths, parent directories,
//! extensions and joins, each against an exact specification.

use vstd::prelude::*;

verus! {

/// The path separator byte, `'/'`.
pub open spec fn slash() -> u8 {
    47
}

/// The byte that separates a file stem from its extension, `'.'`.
pub open spec fn dot() -> u8 {
    46
}

/// Index of the last occurrence of `b` in `s`, if any.
pub open spec fn last_byte(s: Seq<u8>, b: u8) -> Option<int>
    decreases s.len(),
{
    if s.len() == 0 {
        None
    } else if s[s.len() - 1] == b {
        Some(s.len() - 1)
    } else {
        last_byte(s.take(s.len() - 1), b)
    }
}

/// `last_byte` names an index of `b` after which no further `b` occurs.
pub proof fn lemma_last_byte(s: Seq<u8>, b: u8)
    ensures
        match last_byte(s, b) {
            Some(i) => 0 <= i < s.len() && s[i] == b && (forall|j: int|
                i < j < s.len() ==> s[j] != b),
            None => forall|j: int| 0 <= j < s.len() ==> s[j] != b,
        },
    decreases s.len(),
{
    if s.len() > 0 && s[s.len() - 1] != b {
        let t = s.take(s.len() - 1);
        lemma_last_byte(t, b);
        assert(forall|j: int| 0 <= j < t.len() ==> t[j] == s[j]);
        assert(last_byte(s, b) == last_byte(t, b));
    }
}

/// Index of the last occurrence of `b`, found by scanning from the end.
pub fn rfind_byte(s: &Vec<u8>, b: u8) -> (r: Option<usize>)
    ensures
        match r {
            Some(i) => last_byte(s@, b) == Some(i as int),
            None => last_byte(s@, b) is None,
        },
{
    let mut i: usize = s.len();
    proof {
        assert(s@.take(i as int) =~= s@);
    }
    while i > 0
        invariant
            i <= s@.len(),
            last_byte(s@, b) == last_byte(s@.take(i as int), b),
        decreases i,
    {
        if s[i - 1] == b {
            proof {
                assert(s@.take(i as int)[i - 1] == b);
            }
            return Some(i - 1);
        }
        proof {
            assert(s@.take(i as int).take(i - 1) =~= s@.take(i - 1));
            assert(s@.take(i as int)[i - 1] != b);
        }
        i = i - 1;
    }
    proof {
        assert(s@.take(0) =~= Seq::<u8>::empty());
    }
    None
}

/// A copy of `s[from..to]`.
pub fn copy_range(s: &Vec<u8>, from: usize, to: usize) -> (r: Vec<u8>)
    requires
        from <= to <= s@.len(),
    ensures
        r@ == s@.subrange(from as int, to as int),
{
    let mut r: Vec<u8> = Vec::new();
    let mut i: usize = from;
    while i < to
        invariant
            from <= i <= to <= s@.len(),
            r@ =~= s@.subrange(from as int, i as int),
        decreases to - i,
    {
        r.push(s[i]);
        i = i + 1;
    }
    proof {
        assert(r@ =~= s@.subrange(from as int, to as int));
    }
    r
}

/// Whether two byte strings hold the same bytes.
pub fn eq_bytes(a: &Vec<u8>, b: &Vec<u8>) -> (r: bool)
    ensures
        r == (a@ == b@),
{
    if a.len() != b.len() {
        proof {
            assert(a@ != b@);
        }
        return false;
    }
    let mut i: usize = 0;
    while i < a.len()
        invariant
            i <= a@.len(),
            a@.len() == b@.len(),
            forall|j: int| 0 <= j < i ==> a@[j] == b@[j],
        decreases a@.len() - i,
    {
        if a[i] != b[i] {
            return false;
        }
        i = i + 1;
    }
    proof {
        assert(a@ =~= b@);
    }
    true
}

/// Whether `v` holds the byte `b` anywhere.
pub fn contains_byte(v: &Vec<u8>, b: u8) -> (r: bool)
    ensures
        r == v@.contains(b),
{
    let mut i: usize = 0;
    while i < v.len()
        invariant
            i <= v@.len(),
            forall|j: int| 0 <= j < i ==> v@[j] != b,
        decreases v@.len() - i,
    {
        if v[i] == b {
            return true;
        }
        i = i + 1;
    }
    false
}

/// Whether `p` begins with `prefix`.
pub open spec fn is_prefix(prefix: Seq<u8>, p: Seq<u8>) -> bool {
    prefix.len() <= p.len() && p.take(prefix.len() as int) == prefix
}

/// Prefix test on byte strings.
pub fn starts_with(p: &Vec<u8>, prefix: &Vec<u8>) -> (r: bool)
    ensures
        r == is_prefix(prefix@, p@),
{
    if prefix.len() > p.len() {
        return false;
    }
    let mut i: usize = 0;
    while i < prefix.len()
        invariant
            i <= prefix@.len() <= p@.len(),
            forall|j: int| 0 <= j < i ==> p@[j] == prefix@[j],
        decreases prefix@.len() - i,
    {
        if p[i] != prefix[i] {
            proof {
                assert(p@.take(prefix@.len() as int)[i as int] != prefix@[i as int]);
            }
            return false;
        }
        i = i + 1;
    }
    proof {
        assert(p@.take(prefix@.len() as int) =~= prefix@);
    }
    true
}

/// `a` and `b` joined with a single separator.
pub open spec fn join_spec(a: Seq<u8>, b: Seq<u8>) -> Seq<u8> {
    a + seq![slash()] + b
}

/// Joins two path fragments with `/`.
pub fn join(a: &Vec<u8>, b: &Vec<u8>) -> (r: Vec<u8>)
    ensures
        r@ == join_spec(a@, b@),
{
    let mut r: Vec<u8> = Vec::new();
    r.extend_from_slice(a.as_slice());
    r.push(47);
    r.extend_from_slice(b.as_slice());
    proof {
        assert(r@ =~= join_spec(a@, b@));
    }
    r
}

/// The path of `p` relative to `root`: what follows `root/` when `p` lies
/// under `root`, the empty path when `p` is `root` itself, and nothing when
/// it lies elsewhere — a path outside the root has no relative path.
pub open spec fn rel_of(p: Seq<u8>, root: Seq<u8>) -> Option<Seq<u8>> {
    if p == root {
        Some(Seq::empty())
    } else if is_prefix(root + seq![slash()], p) {
        Some(p.skip(root.len() + 1 as int))
    } else {
        None
    }
}

/// Strips `root` from the front of `p`; a path that does not lie under the
/// root yields nothing.
pub fn relative_to(p: &Vec<u8>, root: &Vec<u8>) -> (r: Option<Vec<u8>>)
    ensures
        match r {
            Some(v) => rel_of(p@, root@) == Some(v@),
            None => rel_of(p@, root@) is None,
        },
{
    if eq_bytes(p, root) {
        return Some(Vec::new());
    }
    let mut rooted: Vec<u8> = Vec::new();
    rooted.extend_from_slice(root.as_slice());
    rooted.push(47);
    proof {
        assert(rooted@ =~= root@ + seq![slash()]);
    }
    if starts_with(p, &rooted) {
        Some(copy_range(p, rooted.len(), p.len()))
    } else {
        None
    }
}

/// The directory part of `p`: the bytes before the last separator, the empty
/// path when `p` has no separator, and nothing when `p` itself is empty.
pub open spec fn parent_of(p: Seq<u8>) -> Option<Seq<u8>> {
    if p.len() == 0 {
        None
    } else {
        match last_byte(p, slash()) {
            Some(i) => Some(p.take(i)),
            None => Some(Seq::empty()),
        }
    }
}

/// The directory part of a non-empty path.
pub fn parent_dir(p: &Vec<u8>) -> (r: Option<Vec<u8>>)
    ensures
        match r {
            Some(d) => parent_of(p@) == Some(d@),
            None => parent_of(p@) is None,
        },
{
    if p.len() == 0 {
        return None;
    }
    match rfind_byte(p, 47) {
        Some(i) => {
            proof {
                lemma_last_byte(p@, slash());
            }
            Some(copy_range(p, 0, i))
        },
        None => Some(Vec::new()),
    }
}

/// The file-name part of `p`: the bytes after the last separator.
pub open spec fn file_name_of(p: Seq<u8>) -> Seq<u8> {
    match last_byte(p, slash()) {
        Some(i) => p.skip(i + 1),
        None => p,
    }
}

/// The extension of `p`: the bytes of the file name after its last dot,
/// provided that dot is not the file name's first byte.
pub open spec fn extension_of(p: Seq<u8>) -> Option<Seq<u8>> {
    let f = file_name_of(p);
    match last_byte(f, dot()) {
        Some(i) => if i > 0 {
            Some(f.skip(i + 1))
        } else {
            None
        },
        None => None,
    }
}

/// The file name of `p` as a fresh byte string.
pub fn file_name(p: &Vec<u8>) -> (r: Vec<u8>)
    ensures
        r@ == file_name_of(p@),
{
    match rfind_byte(p, 47) {
        Some(i) => {
            proof {
                lemma_last_byte(p@, slash());
            }
            let n = p.len();
            copy_range(p, i + 1, n)
        },
        None => copy_range(p, 0, p.len()),
    }
}

/// The extension of `p` as a fresh byte string, if it has one.
pub fn extension(p: &Vec<u8>) -> (r: Option<Vec<u8>>)
    ensures
        match r {
            Some(e) => extension_of(p@) == Some(e@),
            None => extension_of(p@) is None,
        },
{
    let f = file_name(p);
    match rfind_byte(&f, 46) {
        Some(i) => {
            proof {
                lemma_last_byte(f@, dot());
            }
            if i > 0 {
                Some(copy_range(&f, i + 1, f.len()))
            } else {
                None
            }
        },
        None => None,
    }
}

} // verus!
