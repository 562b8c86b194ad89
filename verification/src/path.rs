//! Unix paths held as strings: joining, the final component, the parent and
//! the extension, with the meaning that `std::path` gives them.
//!
//! A path is read as an optional head (a root `/`, or a leading `.` naming the
//! current directory) followed by a body of `/`-separated segments; empty and
//! `.` segments in the body do not count as components.

use vstd::prelude::*;
use crate::text::{concat, last_index_of, lemma_last_index_of, rfind_char, same_text};

verus! {

/// Whether the path starts at the root.
pub open spec fn has_root(p: Seq<char>) -> bool {
    p.len() > 0 && p[0] == '/'
}

/// Whether the path starts with a `.` that names the current directory.
pub open spec fn has_cur_dir(p: Seq<char>) -> bool {
    !has_root(p) && p.len() > 0 && p[0] == '.' && (p.len() == 1 || p[1] == '/')
}

/// Length of the head: 1 for a root or a leading current-directory `.`, else 0.
pub open spec fn head_len(p: Seq<char>) -> int {
    if has_root(p) || has_cur_dir(p) {
        1
    } else {
        0
    }
}

/// Length left of `p[..n]` once trailing separators and trailing `.`
/// segments are dropped, never going below the head `h`.
pub open spec fn trim_to(p: Seq<char>, h: int, n: int) -> int
    decreases n,
{
    if n <= h || n <= 0 {
        n
    } else if p[n - 1] == '/' {
        trim_to(p, h, n - 1)
    } else if p[n - 1] == '.' && (n - 1 == h || p[n - 2] == '/') {
        trim_to(p, h, n - 1)
    } else {
        n
    }
}

/// Start of the last segment of `p[h..n]`: just after its last separator, or `h`.
pub open spec fn seg_start(p: Seq<char>, h: int, n: int) -> int
    decreases n - h,
{
    if n <= h {
        h
    } else if p[n - 1] == '/' {
        n
    } else {
        seg_start(p, h, n - 1)
    }
}

/// Where `p[..n]` ends once its last segment `p[s..n]` and the separator
/// before it are removed.
pub open spec fn cut_at(h: int, s: int) -> int {
    if s > h {
        s - 1
    } else {
        h
    }
}

pub proof fn lemma_trim_to(p: Seq<char>, h: int, n: int)
    requires
        0 <= h <= 1,
        0 <= n <= p.len(),
    ensures
        n <= h ==> trim_to(p, h, n) == n,
        n > h ==> h <= trim_to(p, h, n) <= n,
        trim_to(p, h, n) > h ==> p[trim_to(p, h, n) - 1] != '/',
        trim_to(p, h, n) > h ==> !(p[trim_to(p, h, n) - 1] == '.' && (trim_to(p, h, n) - 1 == h
            || p[trim_to(p, h, n) - 2] == '/')),
    decreases n,
{
    if n > h && n > 0 {
        if p[n - 1] == '/' || (p[n - 1] == '.' && (n - 1 == h || p[n - 2] == '/')) {
            lemma_trim_to(p, h, n - 1);
        }
    }
}

pub proof fn lemma_seg_start(p: Seq<char>, h: int, n: int)
    requires
        0 <= h <= n <= p.len(),
    ensures
        h <= seg_start(p, h, n) <= n,
        seg_start(p, h, n) > h ==> p[seg_start(p, h, n) - 1] == '/',
        forall|j: int| seg_start(p, h, n) <= j < n ==> p[j] != '/',
    decreases n - h,
{
    if n > h && p[n - 1] != '/' {
        lemma_seg_start(p, h, n - 1);
    }
}

/// `base.join(part)`: an absolute `part` replaces `base`; otherwise a
/// separator is put between them unless `base` is empty or already ends in one.
pub open spec fn join(base: Seq<char>, part: Seq<char>) -> Seq<char> {
    if part.len() > 0 && part[0] == '/' {
        part
    } else if base.len() == 0 || base.last() == '/' {
        base + part
    } else {
        base + seq!['/'] + part
    }
}

/// The final component of the path, unless it is `..` or there is none.
pub open spec fn file_name(p: Seq<char>) -> Option<Seq<char>> {
    let h = head_len(p);
    let n = trim_to(p, h, p.len() as int);
    if n <= h {
        None
    } else {
        let c = p.subrange(seg_start(p, h, n), n);
        if c == seq!['.', '.'] {
            None
        } else {
            Some(c)
        }
    }
}

/// The path without its final component; none for the root or an empty path.
pub open spec fn parent(p: Seq<char>) -> Option<Seq<char>> {
    let h = head_len(p);
    let n = trim_to(p, h, p.len() as int);
    if n <= h {
        if has_cur_dir(p) {
            Some(Seq::<char>::empty())
        } else {
            None
        }
    } else {
        Some(p.take(trim_to(p, h, cut_at(h, seg_start(p, h, n)))))
    }
}

/// The part of the file name after its last `.`, when that `.` is not its
/// first character.
pub open spec fn extension(p: Seq<char>) -> Option<Seq<char>> {
    match file_name(p) {
        None => None,
        Some(f) => {
            let k = last_index_of(f, '.');
            if k <= 0 {
                None
            } else {
                Some(f.subrange(k + 1, f.len() as int))
            }
        },
    }
}

/// `p.with_file_name(name)`: the parent joined with `name` when `p` has a
/// file name, else `p` joined with `name`.
pub open spec fn with_file_name(p: Seq<char>, name: Seq<char>) -> Seq<char> {
    if file_name(p) is Some {
        join(parent(p).unwrap(), name)
    } else {
        join(p, name)
    }
}

/// The body components of `p[..len]`, front to back.
pub open spec fn components_upto(p: Seq<char>, h: int, len: nat) -> Seq<Seq<char>>
    decreases len,
{
    let n = trim_to(p, h, len as int);
    if n <= h || h < 0 || h > 1 || len > p.len() {
        Seq::empty()
    } else {
        let s = seg_start(p, h, n);
        let m = cut_at(h, s);
        proof {
            lemma_trim_to(p, h, len as int);
            lemma_seg_start(p, h, n);
        }
        components_upto(p, h, m as nat).push(p.subrange(s, n))
    }
}

/// The body components of the path, front to back.
pub open spec fn components(p: Seq<char>) -> Seq<Seq<char>> {
    components_upto(p, head_len(p), p.len())
}

/// Two paths name the same place component by component, as `Path`'s `==` decides.
pub open spec fn same_path(a: Seq<char>, b: Seq<char>) -> bool {
    &&& has_root(a) == has_root(b)
    &&& has_cur_dir(a) == has_cur_dir(b)
    &&& components(a) == components(b)
}

fn head_len_of(p: &str) -> (h: usize)
    ensures
        h == head_len(p@),
{
    let n = p.unicode_len();
    if n > 0 && p.get_char(0) == '/' {
        1
    } else if n > 0 && p.get_char(0) == '.' && (n == 1 || p.get_char(1) == '/') {
        1
    } else {
        0
    }
}

fn has_root_of(p: &str) -> (r: bool)
    ensures
        r == has_root(p@),
{
    p.unicode_len() > 0 && p.get_char(0) == '/'
}

fn trim_to_of(p: &str, h: usize, n: usize) -> (r: usize)
    requires
        h <= 1,
        n <= p@.len(),
    ensures
        r == trim_to(p@, h as int, n as int),
{
    let mut k = n;
    while k > h
        invariant
            k <= n <= p@.len(),
            h <= 1,
            trim_to(p@, h as int, k as int) == trim_to(p@, h as int, n as int),
        decreases k,
    {
        let c = p.get_char(k - 1);
        if c == '/' {
            k = k - 1;
        } else if c == '.' && (k - 1 == h || p.get_char(k - 2) == '/') {
            k = k - 1;
        } else {
            return k;
        }
    }
    k
}

fn seg_start_of(p: &str, h: usize, n: usize) -> (r: usize)
    requires
        h <= n <= p@.len(),
    ensures
        r == seg_start(p@, h as int, n as int),
{
    let mut k = n;
    while k > h
        invariant
            h <= k <= n <= p@.len(),
            seg_start(p@, h as int, k as int) == seg_start(p@, h as int, n as int),
        decreases k,
    {
        if p.get_char(k - 1) == '/' {
            return k;
        }
        k = k - 1;
    }
    k
}

/// `base.join(part)` on string paths.
pub fn join_path(base: &str, part: &str) -> (r: String)
    ensures
        r@ == join(base@, part@),
{
    let pn = part.unicode_len();
    let bn = base.unicode_len();
    if pn > 0 && part.get_char(0) == '/' {
        String::from_str(part)
    } else if bn == 0 || base.get_char(bn - 1) == '/' {
        concat(base, part)
    } else {
        let mut r = String::from_str(base);
        r.append("/");
        r.append(part);
        proof {
            reveal_strlit("/");
        }
        assert(r@ =~= base@ + seq!['/'] + part@);
        r
    }
}

/// The final component of the path.
pub fn path_file_name(p: &str) -> (r: Option<&str>)
    ensures
        match r {
            Some(c) => file_name(p@) == Some(c@),
            None => file_name(p@) is None,
        },
{
    let h = head_len_of(p);
    let n = trim_to_of(p, h, p.unicode_len());
    if n <= h {
        return None;
    }
    proof {
        lemma_trim_to(p@, h as int, p@.len() as int);
    }
    let s = seg_start_of(p, h, n);
    proof {
        lemma_seg_start(p@, h as int, n as int);
    }
    let c = p.substring_char(s, n);
    if c.unicode_len() == 2 && c.get_char(0) == '.' && c.get_char(1) == '.' {
        assert(c@ =~= seq!['.', '.']);
        None
    } else {
        assert(c@ != seq!['.', '.']) by {
            if c@ == seq!['.', '.'] {
                assert(c@.len() == 2 && c@[0] == '.' && c@[1] == '.');
            }
        }
        Some(c)
    }
}

/// The path without its final component.
pub fn path_parent(p: &str) -> (r: Option<&str>)
    ensures
        match r {
            Some(q) => parent(p@) == Some(q@),
            None => parent(p@) is None,
        },
{
    let h = head_len_of(p);
    let n = trim_to_of(p, h, p.unicode_len());
    if n <= h {
        if h == 1 && !has_root_of(p) {
            return Some(p.substring_char(0, 0));
        } else {
            return None;
        }
    }
    proof {
        lemma_trim_to(p@, h as int, p@.len() as int);
    }
    let s = seg_start_of(p, h, n);
    proof {
        lemma_seg_start(p@, h as int, n as int);
    }
    let m = if s > h { s - 1 } else { h };
    let k = trim_to_of(p, h, m);
    proof {
        lemma_trim_to(p@, h as int, m as int);
    }
    Some(p.substring_char(0, k))
}

/// The extension of the path's file name.
pub fn path_extension(p: &str) -> (r: Option<&str>)
    ensures
        match r {
            Some(e) => extension(p@) == Some(e@),
            None => extension(p@) is None,
        },
{
    match path_file_name(p) {
        None => None,
        Some(f) => {
            match rfind_char(f, '.') {
                None => None,
                Some(k) => {
                    if k == 0 {
                        None
                    } else {
                        proof {
                            lemma_last_index_of(f@, '.');
                        }
                        let fl = f.unicode_len();
                        Some(f.substring_char(k + 1, fl))
                    }
                },
            }
        },
    }
}

/// `p.with_file_name(name)` on string paths.
pub fn path_with_file_name(p: &str, name: &str) -> (r: String)
    ensures
        r@ == with_file_name(p@, name@),
{
    match path_file_name(p) {
        Some(_) => {
            match path_parent(p) {
                Some(q) => join_path(q, name),
                None => {
                    proof {
                        let h = head_len(p@);
                        lemma_trim_to(p@, h, p@.len() as int);
                    }
                    join_path(p, name)
                },
            }
        },
        None => join_path(p, name),
    }
}

/// Pushing onto two sequences gives equal results exactly when the
/// sequences and the pushed elements are equal.
proof fn lemma_push_eq<A>(x: Seq<A>, u: A, y: Seq<A>, v: A)
    ensures
        (x.push(u) == y.push(v)) == (x == y && u == v),
{
    if x.push(u) == y.push(v) {
        assert(x.push(u).drop_last() =~= x);
        assert(y.push(v).drop_last() =~= y);
        assert(x.push(u).last() == u);
    }
}

/// Whether two paths name the same place, as `Path`'s `==` decides.
pub fn paths_equal(a: &str, b: &str) -> (r: bool)
    ensures
        r == same_path(a@, b@),
{
    let ha = head_len_of(a);
    let hb = head_len_of(b);
    let ra = has_root_of(a);
    let rb = has_root_of(b);
    if ra != rb || (ha == 1 && !ra) != (hb == 1 && !rb) {
        return false;
    }
    let mut la = a.unicode_len();
    let mut lb = b.unicode_len();
    loop
        invariant
            ha == head_len(a@),
            hb == head_len(b@),
            la <= a@.len(),
            lb <= b@.len(),
            has_root(a@) == has_root(b@),
            has_cur_dir(a@) == has_cur_dir(b@),
            (components(a@) == components(b@)) == (components_upto(a@, ha as int, la as nat)
                == components_upto(b@, hb as int, lb as nat)),
        decreases la + lb,
    {
        let na = trim_to_of(a, ha, la);
        let nb = trim_to_of(b, hb, lb);
        proof {
            lemma_trim_to(a@, ha as int, la as int);
            lemma_trim_to(b@, hb as int, lb as int);
        }
        if na <= ha || nb <= hb {
            let ghost ca = components_upto(a@, ha as int, la as nat);
            let ghost cb = components_upto(b@, hb as int, lb as nat);
            if na <= ha && nb <= hb {
                assert(ca =~= cb);
                return true;
            } else {
                proof {
                    if na <= ha {
                        assert(ca.len() == 0);
                        assert(cb.len() > 0);
                    } else {
                        assert(cb.len() == 0);
                        assert(ca.len() > 0);
                    }
                }
                return false;
            }
        }
        let sa = seg_start_of(a, ha, na);
        let sb = seg_start_of(b, hb, nb);
        proof {
            lemma_seg_start(a@, ha as int, na as int);
            lemma_seg_start(b@, hb as int, nb as int);
        }
        let ma = if sa > ha { sa - 1 } else { ha };
        let mb = if sb > hb { sb - 1 } else { hb };
        let same_last = same_text(a.substring_char(sa, na), b.substring_char(sb, nb));
        proof {
            lemma_push_eq(
                components_upto(a@, ha as int, ma as nat),
                a@.subrange(sa as int, na as int),
                components_upto(b@, hb as int, mb as nat),
                b@.subrange(sb as int, nb as int),
            );
        }
        if !same_last {
            return false;
        }
        la = ma;
        lb = mb;
    }
}

/// `seg_start` walks back over a run of non-separators.
proof fn lemma_seg_start_skip(p: Seq<char>, h: int, a: int, n: int)
    requires
        0 <= h <= a <= n <= p.len(),
        forall|j: int| a <= j < n ==> p[j] != '/',
    ensures
        seg_start(p, h, n) == seg_start(p, h, a),
    decreases n - a,
{
    if n > a {
        lemma_seg_start_skip(p, h, a, n - 1);
    }
}

/// A plain file name: non-empty, without separators, and neither `.` nor `..`.
pub open spec fn plain_name(name: Seq<char>) -> bool {
    &&& name.len() > 0
    &&& !name.contains('/')
    &&& name != seq!['.']
    &&& name != seq!['.', '.']
}

/// Joining a plain name onto a directory gives a path whose file name is
/// that name.
pub proof fn lemma_file_name_of_join(dir: Seq<char>, name: Seq<char>)
    requires
        plain_name(name),
    ensures
        file_name(join(dir, name)) == Some(name),
{
    let p = join(dir, name);
    let len = p.len() as int;
    let a = len - name.len();
    assert(name[0] != '/') by {
        assert(!name.contains('/'));
        if name[0] == '/' {
            assert(name.contains('/'));
        }
    }
    assert(p.subrange(a, len) =~= name);
    assert forall|j: int| a <= j < len implies p[j] != '/' by {
        assert(p[j] == name[j - a]);
        if name[j - a] == '/' {
            assert(name.contains('/'));
        }
    }
    let h = head_len(p);
    // The head lies inside `dir` and its separator, or is empty.
    assert(h <= a) by {
        if a == 0 {
            assert(p =~= name);
            if has_cur_dir(p) {
                if name.len() == 1 {
                    assert(name =~= seq!['.']);
                } else {
                    assert(p[1] == '/');
                }
            }
        }
    }
    // Nothing is trimmed from the end.
    assert(trim_to(p, h, len) == len) by {
        assert(p[len - 1] == name.last());
        if name.last() == '.' {
            if name.len() == 1 {
                assert(name =~= seq!['.']);
            } else {
                assert(p[len - 2] == name[name.len() - 2]);
                assert(len - 1 != h);
            }
        }
    }
    lemma_seg_start_skip(p, h, a, len);
    if a > h {
        assert(p[a - 1] == '/');
    }
    assert(seg_start(p, h, a) == a);
}

/// Renaming a path's file to a plain name gives a path whose file name is
/// that name.
pub proof fn lemma_file_name_of_with_file_name(p: Seq<char>, name: Seq<char>)
    requires
        plain_name(name),
    ensures
        file_name(with_file_name(p, name)) == Some(name),
{
    if file_name(p) is Some {
        lemma_file_name_of_join(parent(p).unwrap(), name);
    } else {
        lemma_file_name_of_join(p, name);
    }
}

} // verus!
