//! POSIX-style relative paths as sequences of components.
use vstd::prelude::*;
use vstd::string::*;

verus! {

/// The characters of each string.
pub open spec fn strs(v: Seq<String>) -> Seq<Seq<char>> {
    v.map_values(|x: String| x@)
}

/// The components joined by `/`.
pub open spec fn join_path(c: Seq<Seq<char>>) -> Seq<char>
    decreases c.len(),
{
    if c.len() == 0 {
        Seq::empty()
    } else if c.len() == 1 {
        c[0]
    } else {
        join_path(c.drop_last()) + seq!['/'] + c.last()
    }
}

/// A component holds no separator.
pub open spec fn is_component(s: Seq<char>) -> bool {
    forall|i: int| 0 <= i < s.len() ==> s[i] != '/'
}

/// Every entry is a component.
pub open spec fn all_components(c: Seq<Seq<char>>) -> bool {
    forall|i: int| 0 <= i < c.len() ==> is_component(#[trigger] c[i])
}

/// Splits a path at each `/`; the result joined by `/` is the path again.
pub fn split_path(s: &str) -> (r: Vec<String>)
    ensures
        r@.len() >= 1,
        join_path(strs(r@)) == s@,
        all_components(strs(r@)),
{
    let n = s.unicode_len();
    let mut acc: Vec<String> = Vec::new();
    let mut start: usize = 0;
    let mut i: usize = 0;
    while i < n
        invariant
            n == s@.len(),
            start <= i <= n,
            join_path(strs(acc@).push(s@.subrange(start as int, i as int))) == s@.subrange(0, i as int),
            all_components(strs(acc@)),
            is_component(s@.subrange(start as int, i as int)),
        decreases n - i,
    {
        let c = s.get_char(i);
        if c == '/' {
            let piece = String::from_str(s.substring_char(start, i));
            let ghost old_acc = strs(acc@);
            acc.push(piece);
            proof {
                assert(strs(acc@) =~= old_acc.push(s@.subrange(start as int, i as int)));
                let e = s@.subrange(i as int + 1, i as int + 1);
                let t = strs(acc@).push(e);
                assert(t.drop_last() =~= strs(acc@));
                assert(e =~= Seq::<char>::empty());
                assert(s@.subrange(0, i as int + 1) =~= s@.subrange(0, i as int) + seq!['/'] + e);
            }
            start = i + 1;
        } else {
            proof {
                let a = strs(acc@);
                let old_piece = s@.subrange(start as int, i as int);
                let piece = s@.subrange(start as int, i as int + 1);
                assert(piece =~= old_piece.push(c));
                assert(s@.subrange(0, i as int + 1) =~= s@.subrange(0, i as int).push(c));
                if a.len() > 0 {
                    assert(a.push(piece).drop_last() =~= a);
                    assert(a.push(old_piece).drop_last() =~= a);
                    assert(join_path(a.push(piece)) =~= join_path(a) + seq!['/'] + piece);
                    assert(join_path(a.push(old_piece)) =~= join_path(a) + seq!['/'] + old_piece);
                } else {
                    assert(a.push(piece) =~= seq![piece]);
                    assert(a.push(old_piece) =~= seq![old_piece]);
                }
                assert(is_component(piece));
            }
        }
        i = i + 1;
    }
    let last = String::from_str(s.substring_char(start, n));
    let ghost old_acc = strs(acc@);
    acc.push(last);
    proof {
        assert(strs(acc@) =~= old_acc.push(s@.subrange(start as int, n as int)));
        assert(s@.subrange(0, n as int) =~= s@);
    }
    acc
}

/// Joins components with `/`.
pub fn join_components(c: &Vec<String>) -> (r: String)
    ensures
        r@ == join_path(strs(c@)),
{
    let mut r = String::new();
    let mut i: usize = 0;
    while i < c.len()
        invariant
            0 <= i <= c.len(),
            r@ == join_path(strs(c@).subrange(0, i as int)),
        decreases c.len() - i,
    {
        let ghost before = r@;
        if i > 0 {
            r.append("/");
        }
        r.append(c[i].as_str());
        proof {
            let p = strs(c@).subrange(0, i as int + 1);
            assert(p.drop_last() =~= strs(c@).subrange(0, i as int));
            if i == 0 {
                assert(r@ =~= p[0]);
            } else {
                reveal_strlit("/");
                assert(r@ =~= before + seq!['/'] + p.last());
            }
        }
        i = i + 1;
    }
    assert(strs(c@).subrange(0, c@.len() as int) =~= strs(c@));
    r
}

/// The length of the longest common leading run of components.
pub open spec fn common_len(a: Seq<Seq<char>>, b: Seq<Seq<char>>) -> nat
    decreases a.len(),
{
    if a.len() == 0 || b.len() == 0 || a[0] != b[0] {
        0
    } else {
        1 + common_len(a.drop_first(), b.drop_first())
    }
}

/// The longest common leading run of components.
pub open spec fn common_prefix(a: Seq<Seq<char>>, b: Seq<Seq<char>>) -> Seq<Seq<char>> {
    a.take(common_len(a, b) as int)
}

/// `p` is a leading run of `c`.
pub open spec fn is_prefix(p: Seq<Seq<char>>, c: Seq<Seq<char>>) -> bool {
    p.len() <= c.len() && c.take(p.len() as int) == p
}

proof fn lemma_common_len(a: Seq<Seq<char>>, b: Seq<Seq<char>>)
    ensures
        common_len(a, b) <= a.len(),
        common_len(a, b) <= b.len(),
        forall|i: int| 0 <= i < common_len(a, b) ==> a[i] == b[i],
        common_len(a, b) < a.len() && common_len(a, b) < b.len() ==> a[common_len(a, b) as int]
            != b[common_len(a, b) as int],
    decreases a.len(),
{
    if !(a.len() == 0 || b.len() == 0 || a[0] != b[0]) {
        lemma_common_len(a.drop_first(), b.drop_first());
        assert forall|i: int| 0 <= i < common_len(a, b) implies a[i] == b[i] by {
            if i > 0 {
                assert(a.drop_first()[i - 1] == a[i]);
                assert(b.drop_first()[i - 1] == b[i]);
            }
        }
    }
}

/// Compares two components.
fn same_component(a: &String, b: &String) -> (r: bool)
    ensures
        r == (a@ == b@),
{
    *a == *b
}

/// The longest common leading run of the components of two paths.
pub fn common_prefix_of(a: &Vec<String>, b: &Vec<String>) -> (r: Vec<String>)
    ensures
        strs(r@) == common_prefix(strs(a@), strs(b@)),
        is_prefix(strs(r@), strs(a@)),
        is_prefix(strs(r@), strs(b@)),
{
    let ghost sa = strs(a@);
    let ghost sb = strs(b@);
    proof {
        lemma_common_len(sa, sb);
    }
    let mut r: Vec<String> = Vec::new();
    let mut i: usize = 0;
    while i < a.len() && i < b.len() && same_component(&a[i], &b[i])
        invariant
            0 <= i <= a.len(),
            i <= b.len(),
            sa == strs(a@),
            sb == strs(b@),
            i <= common_len(sa, sb),
            strs(r@) == sa.take(i as int),
            forall|j: int| 0 <= j < common_len(sa, sb) ==> sa[j] == sb[j],
            common_len(sa, sb) < sa.len() && common_len(sa, sb) < sb.len() ==> sa[common_len(
                sa,
                sb,
            ) as int] != sb[common_len(sa, sb) as int],
            common_len(sa, sb) <= sa.len(),
            common_len(sa, sb) <= sb.len(),
        decreases a.len() - i,
    {
        assert(sa[i as int] == a@[i as int]@);
        let ghost before = strs(r@);
        r.push(a[i].clone());
        assert(strs(r@) =~= before.push(sa[i as int]));
        assert(sa.take(i as int + 1) =~= sa.take(i as int).push(sa[i as int]));
        i = i + 1;
    }
    proof {
        if i < a.len() && i < b.len() {
            assert(sa[i as int] != sb[i as int]);
        }
        assert(i == common_len(sa, sb));
        assert(sb.take(i as int) =~= sa.take(i as int));
    }
    r
}

/// The components with the last one left off.
pub open spec fn parent_of(c: Seq<Seq<char>>) -> Seq<Seq<char>> {
    if c.len() == 0 {
        c
    } else {
        c.drop_last()
    }
}

/// The stem of a file name: what stands before its last `.`, unless that dot
/// opens the name or there is none.
pub open spec fn stem_of(n: Seq<char>) -> Seq<char> {
    if exists|k: int| 0 < k < n.len() && n[k] == '.' {
        let k = choose|k: int|
            0 < k < n.len() && n[k] == '.' && forall|j: int| k < j < n.len() ==> n[j] != '.';
        n.take(k)
    } else {
        n
    }
}

/// The file stem of a file name.
pub fn file_stem(n: &String) -> (r: String)
    ensures
        r@ == stem_of(n@),
{
    let len = n.as_str().unicode_len();
    let mut k: usize = len;
    while k > 1
        invariant
            k <= len,
            len == n@.len(),
            forall|j: int| k <= j < len ==> n@[j] != '.',
        decreases k,
    {
        if n.as_str().get_char(k - 1) == '.' {
            let r = String::from_str(n.as_str().substring_char(0, k - 1));
            proof {
                let kk = (k - 1) as int;
                assert(0 < kk < n@.len() && n@[kk] == '.');
                let c = choose|c: int|
                    0 < c < n@.len() && n@[c] == '.' && forall|j: int| c < j < n@.len() ==> n@[j]
                        != '.';
                assert(c == kk);
            }
            return r;
        }
        k = k - 1;
    }
    n.clone()
}

/// The name with one trailing `.fe` taken off, where it has one.
pub open spec fn strip_fe(n: Seq<char>) -> Seq<char> {
    if n.len() >= 3 && n.subrange(n.len() - 3, n.len() as int) == seq!['.', 'f', 'e'] {
        n.subrange(0, n.len() - 3)
    } else {
        n
    }
}

/// Takes one trailing `.fe` off a name.
pub fn strip_fe_suffix(n: &String) -> (r: String)
    ensures
        r@ == strip_fe(n@),
{
    let len = n.as_str().unicode_len();
    if len >= 3 && n.as_str().get_char(len - 3) == '.' && n.as_str().get_char(len - 2) == 'f'
        && n.as_str().get_char(len - 1) == 'e' {
        assert(n@.subrange(len - 3, len as int) =~= seq!['.', 'f', 'e']);
        String::from_str(n.as_str().substring_char(0, len - 3))
    } else {
        proof {
            if len >= 3 && n@.subrange(len - 3, len as int) == seq!['.', 'f', 'e'] {
                assert(n@.subrange(len - 3, len as int)[0] == n@[len - 3]);
                assert(n@.subrange(len - 3, len as int)[1] == n@[len - 2]);
                assert(n@.subrange(len - 3, len as int)[2] == n@[len - 1]);
            }
        }
        n.clone()
    }
}


/// The components of a path: the only split at `/` whose parts hold no `/`.
pub open spec fn components(s: Seq<char>) -> Seq<Seq<char>> {
    choose|c: Seq<Seq<char>>| c.len() >= 1 && all_components(c) && join_path(c) == s
}

proof fn lemma_join_len(c: Seq<Seq<char>>)
    requires
        c.len() >= 2,
    ensures
        join_path(c).len() == join_path(c.drop_last()).len() + 1 + c.last().len(),
        join_path(c)[join_path(c.drop_last()).len() as int] == '/',
{
}

/// Two splits of one path into components are the same split.
pub proof fn lemma_split_unique(a: Seq<Seq<char>>, b: Seq<Seq<char>>)
    requires
        a.len() >= 1,
        b.len() >= 1,
        all_components(a),
        all_components(b),
        join_path(a) == join_path(b),
    ensures
        a == b,
    decreases a.len() + b.len(),
{
    if a.len() == 1 && b.len() == 1 {
        assert(a =~= b);
    } else if a.len() == 1 {
        lemma_join_len(b);
        let k = join_path(b.drop_last()).len() as int;
        assert(is_component(a[0]));
        assert(join_path(a)[k] == '/');
    } else if b.len() == 1 {
        lemma_join_len(a);
        let k = join_path(a.drop_last()).len() as int;
        assert(is_component(b[0]));
        assert(join_path(b)[k] == '/');
    } else {
        lemma_join_len(a);
        lemma_join_len(b);
        let s = join_path(a);
        let x = join_path(a.drop_last());
        let y = join_path(b.drop_last());
        let la = a.last();
        let lb = b.last();
        assert(is_component(la));
        assert(is_component(lb));
        assert(s =~= x + seq!['/'] + la);
        assert(s =~= y + seq!['/'] + lb);
        if x.len() < y.len() {
            assert(s[y.len() as int] == '/');
            assert(s[y.len() as int] == la[y.len() - x.len() - 1]);
        } else if y.len() < x.len() {
            assert(s[x.len() as int] == '/');
            assert(s[x.len() as int] == lb[x.len() - y.len() - 1]);
        } else {
            assert(x =~= s.take(x.len() as int));
            assert(y =~= s.take(y.len() as int));
            assert(la =~= s.skip(x.len() as int + 1));
            assert(lb =~= s.skip(y.len() as int + 1));
            assert forall|i: int| 0 <= i < a.drop_last().len() implies is_component(
                #[trigger] a.drop_last()[i],
            ) by {
                assert(a.drop_last()[i] == a[i]);
            }
            assert forall|i: int| 0 <= i < b.drop_last().len() implies is_component(
                #[trigger] b.drop_last()[i],
            ) by {
                assert(b.drop_last()[i] == b[i]);
            }
            lemma_split_unique(a.drop_last(), b.drop_last());
            assert(a =~= a.drop_last().push(la));
            assert(b =~= b.drop_last().push(lb));
        }
    }
}

/// Splitting a path gives its components.
pub fn path_components(s: &str) -> (r: Vec<String>)
    ensures
        strs(r@) == components(s@),
        r@.len() >= 1,
        all_components(strs(r@)),
{
    let r = split_path(s);
    proof {
        let c = components(s@);
        assert(strs(r@).len() >= 1 && all_components(strs(r@)) && join_path(strs(r@)) == s@);
        lemma_split_unique(c, strs(r@));
    }
    r
}

/// Compares two component lists.
pub fn same_strings(a: &Vec<String>, b: &Vec<String>) -> (r: bool)
    ensures
        r == (strs(a@) == strs(b@)),
{
    if a.len() != b.len() {
        assert(strs(a@).len() != strs(b@).len());
        return false;
    }
    let mut i: usize = 0;
    while i < a.len()
        invariant
            i <= a@.len(),
            a@.len() == b@.len(),
            forall|j: int| 0 <= j < i ==> a@[j]@ == b@[j]@,
        decreases a.len() - i,
    {
        if a[i] != b[i] {
            assert(strs(a@)[i as int] != strs(b@)[i as int]);
            return false;
        }
        i = i + 1;
    }
    assert(strs(a@) =~= strs(b@));
    true
}

/// The first `n` components, copied.
pub fn take_components(v: &Vec<String>, n: usize) -> (r: Vec<String>)
    requires
        n <= v@.len(),
    ensures
        strs(r@) == strs(v@).take(n as int),
{
    let mut r: Vec<String> = Vec::new();
    let mut i: usize = 0;
    while i < n
        invariant
            i <= n,
            n <= v@.len(),
            strs(r@) == strs(v@).take(i as int),
        decreases n - i,
    {
        let ghost before = strs(r@);
        r.push(v[i].clone());
        assert(strs(r@) =~= before.push(v@[i as int]@));
        assert(strs(v@).take(i as int + 1) =~= strs(v@).take(i as int).push(v@[i as int]@));
        i = i + 1;
    }
    r
}

/// The components from the `n`-th on, copied.
pub fn skip_components(v: &Vec<String>, n: usize) -> (r: Vec<String>)
    requires
        n <= v@.len(),
    ensures
        strs(r@) == strs(v@).skip(n as int),
{
    let mut r: Vec<String> = Vec::new();
    let mut i: usize = n;
    while i < v.len()
        invariant
            n <= i <= v@.len(),
            strs(r@) == strs(v@).subrange(n as int, i as int),
        decreases v@.len() - i,
    {
        let ghost before = strs(r@);
        r.push(v[i].clone());
        assert(strs(r@) =~= before.push(v@[i as int]@));
        assert(strs(v@).subrange(n as int, i as int + 1) =~= strs(v@).subrange(n as int, i as int).push(v@[i as int]@));
        i = i + 1;
    }
    assert(strs(v@).skip(n as int) =~= strs(v@).subrange(n as int, v@.len() as int));
    r
}

} // verus!
