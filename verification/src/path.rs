//! Paths as text, by the rules of Unix: components are separated by `/`. A caller on a system with
//! another separator rewrites its paths first.
use crate::text::{chars_of, text_between};
use vstd::prelude::*;

verus! {

/// `leaf` below `base`. An absolute `leaf` replaces `base`.
pub open spec fn joined(base: Seq<char>, leaf: Seq<char>) -> Seq<char> {
    if leaf.len() > 0 && leaf[0] == '/' {
        leaf
    } else if base.len() == 0 || base.last() == '/' {
        base + leaf
    } else {
        base.push('/') + leaf
    }
}

/// What follows the last `/`.
pub open spec fn last_piece(s: Seq<char>) -> Seq<char>
    decreases s.len(),
{
    if s.len() == 0 || s.last() == '/' {
        Seq::empty()
    } else {
        last_piece(s.drop_last()).push(s.last())
    }
}

/// The last component of a path, if it names a file or a directory: empty pieces and `.` are
/// passed over, and a path that ends in `..`, or has no component, names nothing.
pub open spec fn final_name(s: Seq<char>) -> Option<Seq<char>>
    decreases s.len(),
{
    let p = last_piece(s);
    if p == Seq::<char>::empty() || p == seq!['.'] {
        if p.len() >= s.len() {
            None
        } else {
            final_name(s.take(s.len() - p.len() - 1))
        }
    } else if p == seq!['.', '.'] {
        None
    } else {
        Some(p)
    }
}

/// Whether a path names a file with the extension `json`.
pub open spec fn named_json(s: Seq<char>) -> bool {
    final_name(s) matches Some(p) && p.len() > 5 && p.skip(p.len() - 5) == seq![
        '.',
        'j',
        's',
        'o',
        'n',
    ]
}

/// `leaf` below `base`.
pub fn join(base: &str, leaf: &str) -> (r: String)
    ensures
        r@ == joined(base@, leaf@),
{
    let b = chars_of(base);
    let l = chars_of(leaf);
    if l.len() > 0 && l[0] == '/' {
        return String::from_str(leaf);
    }
    let mut r = String::from_str(base);
    if b.len() > 0 && b[b.len() - 1] != '/' {
        r.push('/');
    }
    r.append(leaf);
    r
}

/// The characters after the last `/` are those from `k` on.
pub proof fn lemma_last_piece(s: Seq<char>, k: int)
    requires
        0 <= k <= s.len(),
        k > 0 ==> s[k - 1] == '/',
        forall|i: int| k <= i < s.len() ==> s[i] != '/',
    ensures
        last_piece(s) == s.skip(k),
    decreases s.len(),
{
    if s.len() > k {
        lemma_last_piece(s.drop_last(), k);
        assert(s.skip(k) == s.drop_last().skip(k).push(s.last()));
    }
}

/// The last component of a path, if it names a file or a directory.
pub fn file_name(path: &str) -> (r: Option<String>)
    ensures
        match r {
            Some(n) => final_name(path@) == Some(n@),
            None => final_name(path@) is None,
        },
{
    let v = chars_of(path);
    let mut end: usize = v.len();
    assert(v@.take(end as int) == path@);
    loop
        invariant
            end <= v.len(),
            final_name(path@) == final_name(v@.take(end as int)),
        decreases end,
    {
        let mut k: usize = end;
        while k > 0 && v[k - 1] != '/'
            invariant
                k <= end <= v.len(),
                forall|i: int| k <= i < end ==> v@[i] != '/',
            decreases k,
        {
            k = k - 1;
        }
        let ghost s = v@.take(end as int);
        proof {
            lemma_last_piece(s, k as int);
        }
        let n = end - k;
        let dot = n == 1 && v[k] == '.';
        let dots = n == 2 && v[k] == '.' && v[k + 1] == '.';
        assert(n == 0 ==> s.skip(k as int) =~= Seq::<char>::empty());
        assert(dot ==> s.skip(k as int) =~= seq!['.']);
        assert(dots ==> s.skip(k as int) =~= seq!['.', '.']);
        assert(forall|i: int| 0 <= i < n ==> s.skip(k as int)[i] == v@[k + i]);
        if n == 0 || dot {
            if k == 0 {
                return None;
            }
            assert(s.take(s.len() - n - 1) =~= v@.take(k - 1));
            end = k - 1;
        } else if dots {
            assert(s.skip(k as int).len() == 2);
            return None;
        } else {
            assert(s.skip(k as int) =~= v@.subrange(k as int, end as int));
            proof {
                if s.skip(k as int) == seq!['.'] {
                    assert(s.skip(k as int)[0] == '.');
                }
                if s.skip(k as int) == seq!['.', '.'] {
                    assert(s.skip(k as int)[0] == '.');
                    assert(s.skip(k as int)[1] == '.');
                }
            }
            return Some(text_between(&v, k, end));
        }
    }
}

/// Whether a path names a file with the extension `json`.
pub fn has_json_extension(path: &str) -> (r: bool)
    ensures
        r == named_json(path@),
{
    match file_name(path) {
        None => false,
        Some(name) => {
            let v = chars_of(&name);
            let n = v.len();
            if n <= 5 {
                return false;
            }
            let r = v[n - 5] == '.' && v[n - 4] == 'j' && v[n - 3] == 's' && v[n - 2] == 'o' && v[n
                - 1] == 'n';
            let ghost t = v@.skip(n - 5);
            let ghost want = seq!['.', 'j', 's', 'o', 'n'];
            assert(t.len() == 5);
            assert(t[0] == v@[n - 5] && t[1] == v@[n - 4] && t[2] == v@[n - 3] && t[3] == v@[n - 2]
                && t[4] == v@[n - 1]);
            assert(r ==> t =~= want);
            assert(t == want ==> t[0] == '.' && t[1] == 'j' && t[2] == 's' && t[3] == 'o' && t[4]
                == 'n');
            r
        },
    }
}

} // verus!
