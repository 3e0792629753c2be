//! Joining of path segments without doubled separators.

use vstd::prelude::*;
use vstd::string::*;

verus! {

/// `s` without the slashes at its end.
pub open spec fn trim_end_slashes(s: Seq<char>) -> Seq<char>
    decreases s.len(),
{
    if s.len() > 0 && s.last() == '/' {
        trim_end_slashes(s.drop_last())
    } else {
        s
    }
}

/// `s` without the slashes at its start.
pub open spec fn trim_start_slashes(s: Seq<char>) -> Seq<char>
    decreases s.len(),
{
    if s.len() > 0 && s.first() == '/' {
        trim_start_slashes(s.drop_first())
    } else {
        s
    }
}

/// The path made of `base` and `suffix`: `base` itself where `suffix` is
/// empty, else the two with exactly one slash put between them in place of
/// the slashes that either carries at the junction.
pub open spec fn join(base: Seq<char>, suffix: Seq<char>) -> Seq<char> {
    if suffix.len() == 0 {
        base
    } else {
        trim_end_slashes(base) + seq!['/'] + trim_start_slashes(suffix)
    }
}

/// Number of characters of `s` that `trim_end_slashes` keeps.
pub open spec fn kept_at_end(s: Seq<char>) -> int {
    trim_end_slashes(s).len() as int
}

/// Trimming the end keeps a prefix, which does not end in a slash, and drops
/// slashes only.
pub proof fn lemma_trim_end(s: Seq<char>)
    ensures
        0 <= kept_at_end(s) <= s.len(),
        trim_end_slashes(s) == s.subrange(0, kept_at_end(s)),
        kept_at_end(s) > 0 ==> s[kept_at_end(s) - 1] != '/',
        forall|i: int| kept_at_end(s) <= i < s.len() ==> s[i] == '/',
    decreases s.len(),
{
    if s.len() > 0 && s.last() == '/' {
        let t = s.drop_last();
        lemma_trim_end(t);
        assert(t.subrange(0, kept_at_end(t)) == s.subrange(0, kept_at_end(t)));
        assert forall|i: int| kept_at_end(s) <= i < s.len() implies s[i] == '/' by {
            if i < t.len() {
                assert(s[i] == t[i]);
            }
        }
    } else {
        assert(s.subrange(0, s.len() as int) == s);
    }
}

/// Number of characters of `s` that `trim_start_slashes` drops.
pub open spec fn dropped_at_start(s: Seq<char>) -> int {
    s.len() - trim_start_slashes(s).len()
}

/// Trimming the start keeps a suffix, which does not begin with a slash, and
/// drops slashes only.
pub proof fn lemma_trim_start(s: Seq<char>)
    ensures
        0 <= dropped_at_start(s) <= s.len(),
        trim_start_slashes(s) == s.subrange(dropped_at_start(s), s.len() as int),
        dropped_at_start(s) < s.len() ==> s[dropped_at_start(s)] != '/',
        forall|i: int| 0 <= i < dropped_at_start(s) ==> s[i] == '/',
    decreases s.len(),
{
    if s.len() > 0 && s.first() == '/' {
        let t = s.drop_first();
        lemma_trim_start(t);
        let d = dropped_at_start(t);
        assert(t.subrange(d, t.len() as int) == s.subrange(d + 1, s.len() as int));
        assert forall|i: int| 0 <= i < dropped_at_start(s) implies s[i] == '/' by {
            if i > 0 {
                assert(s[i] == t[i - 1]);
            }
        }
    } else {
        assert(s.subrange(0, s.len() as int) == s);
    }
}

/// Where the characters of `s` from index `k` on are slashes and the one
/// before them is not, trimming the end keeps exactly the first `k`.
proof fn lemma_trim_end_at(s: Seq<char>, k: int)
    requires
        0 <= k <= s.len(),
        forall|i: int| k <= i < s.len() ==> s[i] == '/',
        k > 0 ==> s[k - 1] != '/',
    ensures
        trim_end_slashes(s) == s.subrange(0, k),
    decreases s.len() - k,
{
    if k == s.len() {
        assert(s.subrange(0, s.len() as int) == s);
    } else {
        let t = s.drop_last();
        assert forall|i: int| k <= i < t.len() implies t[i] == '/' by {
            assert(t[i] == s[i]);
        }
        lemma_trim_end_at(t, k);
        assert(t.subrange(0, k) == s.subrange(0, k));
    }
}

/// Where the first `k` characters of `s` are slashes and the next one is
/// not, trimming the start drops exactly those `k`.
proof fn lemma_trim_start_at(s: Seq<char>, k: int)
    requires
        0 <= k <= s.len(),
        forall|i: int| 0 <= i < k ==> s[i] == '/',
        k < s.len() ==> s[k] != '/',
    ensures
        trim_start_slashes(s) == s.subrange(k, s.len() as int),
    decreases k,
{
    if k == 0 {
        assert(s.subrange(0, s.len() as int) == s);
    } else {
        let t = s.drop_first();
        assert forall|i: int| 0 <= i < k - 1 implies t[i] == '/' by {
            assert(t[i] == s[i + 1]);
        }
        lemma_trim_start_at(t, k - 1);
        assert(t.subrange(k - 1, t.len() as int) == s.subrange(k, s.len() as int));
    }
}

/// Whether the slash at index `at` of `path` stands alone, with no slash
/// right before it and none right after it.
pub open spec fn lone_slash(path: Seq<char>, at: int) -> bool {
    &&& 0 <= at < path.len()
    &&& path[at] == '/'
    &&& at > 0 ==> path[at - 1] != '/'
    &&& at + 1 < path.len() ==> path[at + 1] != '/'
}

/// Joining with an empty suffix changes nothing.
pub proof fn lemma_join_empty(base: Seq<char>)
    ensures
        join(base, Seq::<char>::empty()) == base,
{
}

/// Joining never doubles the separator: the slash that `join` puts at the
/// junction has no slash next to it, however many slashes `base` ends with
/// or `suffix` begins with.
pub proof fn lemma_join_junction(base: Seq<char>, suffix: Seq<char>)
    requires
        suffix.len() > 0,
    ensures
        join(base, suffix).len() == kept_at_end(base) + 1 + trim_start_slashes(suffix).len(),
        join(base, suffix).subrange(0, kept_at_end(base)) == trim_end_slashes(base),
        join(base, suffix).subrange(kept_at_end(base) + 1, join(base, suffix).len() as int)
            == trim_start_slashes(suffix),
        lone_slash(join(base, suffix), kept_at_end(base)),
{
    lemma_trim_end(base);
    lemma_trim_start(suffix);
    let head = trim_end_slashes(base);
    let tail = trim_start_slashes(suffix);
    let joined = join(base, suffix);
    let k = head.len() as int;
    assert(joined.subrange(0, k) == head);
    assert(joined.subrange(k + 1, joined.len() as int) == tail);
    if k > 0 {
        assert(joined[k - 1] == head[k - 1]);
    }
    if k + 1 < joined.len() {
        assert(joined[k + 1] == tail[0]);
    }
}

/// Whether `path` begins with a slash.
pub open spec fn is_absolute(path: Seq<char>) -> bool {
    path.len() > 0 && path[0] == '/'
}

/// A path joined behind an absolute base is absolute, and so is one joined
/// behind the empty base where the suffix is not empty.
pub proof fn lemma_join_absolute(base: Seq<char>, suffix: Seq<char>)
    requires
        is_absolute(base) || (base.len() == 0 && suffix.len() > 0),
    ensures
        is_absolute(join(base, suffix)),
{
    lemma_trim_end(base);
    if suffix.len() > 0 {
        let head = trim_end_slashes(base);
        if head.len() > 0 {
            assert(join(base, suffix)[0] == head[0]);
        }
    }
}

/// Joining is associative: mounting under `a` what was mounted under `b` is
/// mounting under `a` joined with `b`.
pub proof fn lemma_join_assoc(a: Seq<char>, b: Seq<char>, c: Seq<char>)
    ensures
        join(a, join(b, c)) == join(join(a, b), c),
{
    if c.len() == 0 {
    } else {
        lemma_trim_end(a);
        lemma_trim_end(b);
        lemma_trim_start(b);
        lemma_trim_start(c);
        let head = trim_end_slashes(a);
        let tail = trim_start_slashes(c);
        let slash = seq!['/'];
        let inner = join(b, c);
        let k = kept_at_end(b);
        let d = dropped_at_start(b);
        if b.len() == 0 {
            lemma_trim_start_at(inner, 1);
            assert(inner.subrange(1, inner.len() as int) == tail);
        } else if k == 0 {
            // `b` holds slashes only.
            assert(d == b.len()) by {
                if d < b.len() {
                    assert(b[d] == '/');
                }
            }
            lemma_trim_start_at(inner, 1);
            assert(inner.subrange(1, inner.len() as int) == tail);
            let outer = join(a, b);
            assert(outer == head + slash);
            lemma_trim_end_at(outer, head.len() as int);
            assert(outer.subrange(0, head.len() as int) == head);
        } else {
            // `b` holds a character that is no slash, so `d < k`.
            assert(d < k) by {
                if d >= k {
                    assert(b[k - 1] == '/');
                }
            }
            let mid = b.subrange(d, k);
            assert(inner == b.subrange(0, k) + slash + tail);
            assert forall|i: int| 0 <= i < d implies inner[i] == '/' by {
                assert(inner[i] == b[i]);
            }
            assert(inner[d] == b[d]);
            lemma_trim_start_at(inner, d);
            assert(inner.subrange(d, inner.len() as int) == mid + slash + tail);
            let outer = join(a, b);
            assert(outer == head + slash + b.subrange(d, b.len() as int));
            let e = head.len() + 1 + (k - d);
            assert forall|i: int| e <= i < outer.len() implies outer[i] == '/' by {
                assert(outer[i] == b[i - head.len() - 1 + d]);
            }
            assert(outer[e - 1] == b[k - 1]);
            lemma_trim_end_at(outer, e);
            assert(outer.subrange(0, e) == head + slash + mid);
            assert(join(a, inner) == head + slash + (mid + slash + tail));
            assert(join(outer, c) == (head + slash + mid) + slash + tail);
            assert(head + slash + (mid + slash + tail) == (head + slash + mid) + slash + tail);
        }
    }
}

/// Whether `path` can be a mount path: it begins with a slash and, unless
/// it is the root `/`, does not end with one.
pub open spec fn is_mount(path: Seq<char>) -> bool {
    &&& is_absolute(path)
    &&& path.len() > 1 ==> path.last() != '/'
}

/// The mount path that `path` stands for: `path` without the slashes at
/// its end, with a slash put in front where it does not begin with one. For
/// the empty path, and for one made of slashes, that is the root `/`.
pub open spec fn mount_of(path: Seq<char>) -> Seq<char> {
    let kept = trim_end_slashes(path);
    if is_absolute(kept) {
        kept
    } else {
        seq!['/'] + kept
    }
}

/// What `mount_of` gives is a mount path, and a mount path stands for
/// itself.
pub proof fn lemma_mount_of(path: Seq<char>)
    ensures
        is_mount(mount_of(path)),
        is_mount(path) ==> mount_of(path) == path,
        mount_of(mount_of(path)) == mount_of(path),
{
    let root = seq!['/'];
    lemma_trim_end(path);
    lemma_trim_end_at(root, 0);
    assert(root.subrange(0, 0) == Seq::<char>::empty());
    assert(mount_of(root) == root);
    let kept = trim_end_slashes(path);
    let mount = mount_of(path);
    if kept.len() > 0 {
        assert(mount.last() == kept.last());
        lemma_trim_end_at(mount, mount.len() as int);
        assert(mount.subrange(0, mount.len() as int) == mount);
    }
    if is_mount(path) {
        if path.len() > 1 {
            lemma_trim_end_at(path, path.len() as int);
            assert(path.subrange(0, path.len() as int) == path);
        } else {
            assert(path == root);
        }
    }
}

/// The part of `s` before the slashes at its end.
fn trim_end(s: &str) -> (r: &str)
    ensures
        r@ == trim_end_slashes(s@),
{
    let n = s.unicode_len();
    let mut end: usize = 0;
    let mut i: usize = 0;
    let chars = s.chars();
    proof {
        axiom_spec_iter(s);
    }
    for c in it: chars
        invariant
            n == s@.len(),
            it.seq() == s@,
            i == it.index(),
            end == kept_at_end(s@.subrange(0, i as int)),
    {
        proof {
            let before = s@.subrange(0, i as int);
            let after = s@.subrange(0, i + 1);
            assert(after.drop_last() == before);
            assert(after.last() == c);
        }
        i = i + 1;
        if c != '/' {
            end = i;
        }
    }
    proof {
        assert(s@.subrange(0, n as int) == s@);
        lemma_trim_end(s@);
    }
    s.substring_char(0, end)
}

/// The part of `s` after the slashes at its start.
fn trim_start(s: &str) -> (r: &str)
    ensures
        r@ == trim_start_slashes(s@),
{
    let n = s.unicode_len();
    let mut start: usize = 0;
    let mut i: usize = 0;
    let chars = s.chars();
    proof {
        axiom_spec_iter(s);
    }
    for c in it: chars
        invariant
            n == s@.len(),
            it.seq() == s@,
            i == it.index(),
            start <= i,
            forall|j: int| 0 <= j < start ==> s@[j] == '/',
            start < i ==> s@[start as int] != '/',
    {
        if start == i && c == '/' {
            start = i + 1;
        }
        i = i + 1;
    }
    proof {
        lemma_trim_start_at(s@, start as int);
    }
    s.substring_char(start, n)
}

/// Joins `a` and `b` into one path: `a` itself where `b` is empty, else `a`
/// without its trailing slashes, one slash, and `b` without its leading
/// slashes.
pub fn join_paths(a: &str, b: &str) -> (r: String)
    ensures
        r@ == join(a@, b@),
        b@.len() == 0 ==> r@ == a@,
        b@.len() > 0 ==> lone_slash(r@, kept_at_end(a@)),
{
    proof {
        if b@.len() > 0 {
            lemma_join_junction(a@, b@);
        }
    }
    if b.is_empty() {
        return a.to_owned();
    }
    let mut r = String::from_str(trim_end(a));
    proof {
        reveal_strlit("/");
        assert("/"@ == seq!['/']);
    }
    r.append("/");
    r.append(trim_start(b));
    r
}

/// The mount path that `path` stands for: absolute, and without slashes at
/// its end unless it is the root. A path that is a mount path is kept.
pub fn normalize_mount(path: &str) -> (r: String)
    ensures
        r@ == mount_of(path@),
        is_mount(r@),
{
    proof {
        lemma_mount_of(path@);
        reveal_strlit("/");
        assert("/"@ == seq!['/']);
    }
    let kept = trim_end(path);
    if !kept.is_empty() && kept.get_char(0) == '/' {
        return kept.to_owned();
    }
    let mut r = String::from_str("/");
    r.append(kept);
    r
}

} // verus!
