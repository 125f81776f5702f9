//! Reading folder and file paths, held as plain bytes.
//!
//! A path's base name is what follows its last separator byte `/`; a file's
//! extension is what follows the last `.` of its base name, where a `.`
//! that leads the base name does not count (a name such as `.osu` has no
//! extension). Chart files are the files whose extension equals, byte for
//! byte, the chart extension `osu`.

use vstd::prelude::*;

verus! {

/// The base name of a path: the bytes after its last `/` (the whole path
/// when it has none).
pub open spec fn base_name(p: Seq<u8>) -> Seq<u8>
    decreases p.len(),
{
    if p.len() == 0 {
        p
    } else if p.last() == 47 {
        Seq::empty()
    } else {
        base_name(p.drop_last()).push(p.last())
    }
}

/// The extension of a base name: the bytes after its last `.`, none when
/// no `.` follows the first byte.
pub open spec fn ext_of(b: Seq<u8>) -> Option<Seq<u8>>
    decreases b.len(),
{
    if b.len() <= 1 {
        None
    } else if b.last() == 46 {
        Some(Seq::empty())
    } else {
        match ext_of(b.drop_last()) {
            None => None,
            Some(e) => Some(e.push(b.last())),
        }
    }
}

/// The chart extension: the bytes of `osu`.
pub open spec fn chart_ext() -> Seq<u8> {
    seq![111u8, 115u8, 117u8]
}

/// A chart file's path: the extension of its base name equals the chart
/// extension.
pub open spec fn spec_is_chart_path(p: Seq<u8>) -> bool {
    ext_of(base_name(p)) == Some(chart_ext())
}

/// Where a path's suffix holds no `/` and begins right after one (or at the
/// start), that suffix is the base name.
proof fn lemma_base_name_suffix(p: Seq<u8>, i: int)
    requires
        0 <= i <= p.len(),
        forall|j: int| i <= j < p.len() ==> p[j] != 47,
        i == 0 || p[i - 1] == 47,
    ensures
        base_name(p) == p.subrange(i, p.len() as int),
    decreases p.len(),
{
    if i == p.len() {
        if p.len() == 0 {
            assert(base_name(p) =~= p.subrange(i, p.len() as int));
        } else {
            assert(p.last() == 47);
            assert(base_name(p) =~= p.subrange(i, p.len() as int));
        }
    } else {
        assert(p.last() != 47);
        let q = p.drop_last();
        assert forall|j: int| i <= j < q.len() implies q[j] != 47 by {
            assert(q[j] == p[j]);
        }
        if i > 0 {
            assert(q[i - 1] == p[i - 1]);
        }
        lemma_base_name_suffix(q, i);
        assert(base_name(p) =~= p.subrange(i, p.len() as int));
    }
}

/// The base name of a path, computed.
pub fn base_name_of(p: &Vec<u8>) -> (r: Vec<u8>)
    ensures
        r@ == base_name(p@),
{
    let n = p.len();
    let mut i = n;
    while i > 0 && p[i - 1] != 47
        invariant
            i <= n == p@.len(),
            forall|j: int| i <= j < n ==> p@[j] != 47,
        decreases i,
    {
        i = i - 1;
    }
    proof {
        lemma_base_name_suffix(p@, i as int);
    }
    let mut r: Vec<u8> = Vec::new();
    let mut j = i;
    proof {
        assert(r@ =~= p@.subrange(i as int, i as int));
    }
    while j < n
        invariant
            i <= j <= n == p@.len(),
            r@ == p@.subrange(i as int, j as int),
        decreases n - j,
    {
        r.push(p[j]);
        proof {
            assert(p@.subrange(i as int, j + 1) =~= p@.subrange(i as int, j as int).push(
                p@[j as int],
            ));
        }
        j = j + 1;
    }
    proof {
        assert(r@ == base_name(p@));
    }
    r
}

/// A base name ends in `.osu`, with the `.` not leading, exactly when its
/// extension is the chart extension.
proof fn lemma_chart_ext_bytes(b: Seq<u8>)
    ensures
        (ext_of(b) == Some(chart_ext())) <==> (b.len() >= 5 && b[b.len() - 4] == 46 && b[b.len()
            - 3] == 111 && b[b.len() - 2] == 115 && b[b.len() - 1] == 117),
{
    let n = b.len() as int;
    if n >= 5 && b[n - 4] == 46 && b[n - 3] == 111 && b[n - 2] == 115 && b[n - 1] == 117 {
        let b1 = b.drop_last();
        let b2 = b1.drop_last();
        let b3 = b2.drop_last();
        assert(b3.len() == n - 3 && b3.last() == b[n - 4]);
        assert(ext_of(b3) == Some(Seq::<u8>::empty()));
        assert(b2.last() == b[n - 3]);
        assert(ext_of(b2) == Some(Seq::<u8>::empty().push(111u8)));
        assert(b1.last() == b[n - 2]);
        assert(ext_of(b1) == Some(Seq::<u8>::empty().push(111u8).push(115u8)));
        assert(ext_of(b) == Some(Seq::<u8>::empty().push(111u8).push(115u8).push(117u8)));
        assert(Seq::<u8>::empty().push(111u8).push(115u8).push(117u8) =~= chart_ext());
    }
    if ext_of(b) == Some(chart_ext()) {
        assert(n >= 2);
        assert(b.last() != 46) by {
            if b.last() == 46 {
                assert(ext_of(b) == Some(Seq::<u8>::empty()));
                assert(chart_ext().len() == 3);
            }
        }
        let b1 = b.drop_last();
        assert(ext_of(b1) is Some);
        let e1 = ext_of(b1)->Some_0;
        assert(ext_of(b) == Some(e1.push(b.last())));
        assert(e1.push(b.last()) == chart_ext());
        assert(e1.push(b.last()).len() == e1.len() + 1);
        assert(e1.push(b.last())[e1.len() as int] == b.last());
        assert(chart_ext().len() == 3);
        assert(b.last() == chart_ext()[2] && b.last() == b[n - 1]);
        assert(e1 =~= seq![111u8, 115u8]) by {
            assert(e1.len() == 2);
            assert(e1[0] == chart_ext()[0] && e1[1] == chart_ext()[1]);
        }
        assert(b1.len() >= 2);
        assert(b1.last() != 46) by {
            if b1.last() == 46 {
                assert(ext_of(b1) == Some(Seq::<u8>::empty()));
            }
        }
        let b2 = b1.drop_last();
        assert(ext_of(b2) is Some);
        let e2 = ext_of(b2)->Some_0;
        assert(e2.push(b1.last()) == e1);
        assert(b1.last() == e1[1] && b1.last() == b[n - 2]);
        assert(e2 =~= seq![111u8]) by {
            assert(e2.len() == 1);
            assert(e2[0] == e1[0]);
        }
        assert(b2.len() >= 2);
        assert(b2.last() != 46) by {
            if b2.last() == 46 {
                assert(ext_of(b2) == Some(Seq::<u8>::empty()));
            }
        }
        let b3 = b2.drop_last();
        assert(ext_of(b3) is Some);
        let e3 = ext_of(b3)->Some_0;
        assert(e3.push(b2.last()) == e2);
        assert(b2.last() == e2[0] && b2.last() == b[n - 3]);
        assert(e3 =~= Seq::<u8>::empty()) by {
            assert(e3.len() == 0);
        }
        assert(b3.last() == 46) by {
            if b3.last() != 46 {
                assert(ext_of(b3.drop_last()) is Some);
                assert(ext_of(b3)->Some_0.len() > 0);
            }
        }
        assert(b3.len() >= 2);
        assert(b3.last() == b[n - 4]);
        assert(n >= 5);
    }
}

/// Whether a file path names a chart file: the extension of its base name
/// equals the chart extension, byte for byte.
pub fn is_chart_path(p: &Vec<u8>) -> (r: bool)
    ensures
        r == spec_is_chart_path(p@),
{
    let b = base_name_of(p);
    let n = b.len();
    let r = n >= 5 && b[n - 4] == 46 && b[n - 3] == 111 && b[n - 2] == 115 && b[n - 1] == 117;
    proof {
        lemma_chart_ext_bytes(b@);
    }
    r
}

} // verus!
