//! Resolver chain: classifies a requested path string into the four
//! addressing forms (builtin, aliased, absolute, relative) and
//! canonicalizes path spellings so that two spellings of the same
//! file collapse to one cache key.

use vstd::prelude::*;
use vstd::string::StrSliceExecFns;
use vstd::string::StringExecFns;

use crate::clone_string;
use crate::push_char;

verus! {

/// Splitting a path on `/`: the segments, in order.  An empty path
/// has one empty segment; a separator at either end contributes an
/// empty segment there.
pub open spec fn spec_split(s: Seq<char>) -> Seq<Seq<char>>
    decreases s.len(),
{
    if s.len() == 0 {
        seq![Seq::empty()]
    } else {
        let rest = spec_split(s.drop_last());
        if s.last() == '/' {
            rest.push(Seq::empty())
        } else {
            rest.update(rest.len() - 1, rest.last().push(s.last()))
        }
    }
}

/// A split always yields at least one segment.
pub proof fn lemma_split_nonempty(s: Seq<char>)
    ensures
        spec_split(s).len() >= 1,
    decreases s.len(),
{
    if s.len() > 0 {
        lemma_split_nonempty(s.drop_last());
    }
}

pub open spec fn dot() -> Seq<char> {
    seq!['.']
}

pub open spec fn dotdot() -> Seq<char> {
    seq!['.', '.']
}

/// Lexical normalization of a segment list: empty segments and `.`
/// disappear, `..` removes the nearest preceding ordinary segment (or
/// disappears when there is none to remove).
pub open spec fn spec_normalize(segs: Seq<Seq<char>>) -> Seq<Seq<char>>
    decreases segs.len(),
{
    if segs.len() == 0 {
        Seq::empty()
    } else {
        let rest = spec_normalize(segs.drop_last());
        let s = segs.last();
        if s.len() == 0 || s == dot() {
            rest
        } else if s == dotdot() {
            if rest.len() > 0 {
                rest.drop_last()
            } else {
                rest
            }
        } else {
            rest.push(s)
        }
    }
}

/// Joining segments with `/` between them.
pub open spec fn spec_join(segs: Seq<Seq<char>>) -> Seq<char>
    decreases segs.len(),
{
    if segs.len() == 0 {
        Seq::empty()
    } else if segs.len() == 1 {
        segs[0]
    } else {
        spec_join(segs.drop_last()) + seq!['/'] + segs.last()
    }
}

/// The canonical spelling of a path: split on `/`, normalize `.`,
/// `..` and empty segments away, and join back.  Used as the module
/// cache key, so that different spellings of one file collapse.
pub open spec fn spec_canonical(s: Seq<char>) -> Seq<char> {
    spec_join(spec_normalize(spec_split(s)))
}

/// The view of each string of a segment list.
pub open spec fn seg_views(v: Seq<String>) -> Seq<Seq<char>> {
    v.map_values(|t: String| t@)
}

/// Splits a path string on `/`.
pub fn split_segments(s: &str) -> (r: Vec<String>)
    ensures
        seg_views(r@) == spec_split(s@),
{
    let n = s.unicode_len();
    let mut segs: Vec<String> = Vec::new();
    segs.push(String::new());
    proof {
        assert(s@.subrange(0, 0) =~= Seq::<char>::empty());
        assert(seg_views(segs@) =~= spec_split(s@.subrange(0, 0)));
    }
    let mut i: usize = 0;
    while i < n
        invariant
            n == s@.len(),
            i <= n,
            segs@.len() >= 1,
            seg_views(segs@) == spec_split(s@.subrange(0, i as int)),
        decreases n - i,
    {
        let ghost prefix = s@.subrange(0, i as int);
        let c = s.get_char(i);
        if c == '/' {
            segs.push(String::new());
        } else {
            let k = segs.len() - 1;
            push_char(&mut segs[k], c);
        }
        proof {
            lemma_split_nonempty(prefix);
            assert(s@.subrange(0, i as int + 1).drop_last() =~= prefix);
            assert(s@.subrange(0, i as int + 1).last() == s@[i as int]);
            assert(seg_views(segs@) =~~= spec_split(s@.subrange(0, i as int + 1)));
        }
        i = i + 1;
    }
    proof {
        assert(s@.subrange(0, n as int) =~= s@);
    }
    segs
}

/// Whether this string is exactly `.`.
fn string_is_dot(s: &String) -> (r: bool)
    ensures
        r == (s@ == dot()),
{
    let n = s.as_str().unicode_len();
    if n != 1 {
        proof {
            assert(s@ != dot()) by {
                if s@ == dot() {
                    assert(s@.len() == 1);
                }
            }
        }
        return false;
    }
    let c = s.as_str().get_char(0);
    proof {
        assert(s@ =~= seq![s@[0]]);
        if c != '.' {
            assert(s@ != dot()) by {
                if s@ == dot() {
                    assert(s@[0] == dot()[0]);
                }
            }
        }
    }
    c == '.'
}

/// Whether this string is exactly `..`.
fn string_is_dotdot(s: &String) -> (r: bool)
    ensures
        r == (s@ == dotdot()),
{
    let n = s.as_str().unicode_len();
    if n != 2 {
        proof {
            assert(s@ != dotdot()) by {
                if s@ == dotdot() {
                    assert(s@.len() == 2);
                }
            }
        }
        return false;
    }
    let c0 = s.as_str().get_char(0);
    let c1 = s.as_str().get_char(1);
    proof {
        assert(s@ =~= seq![s@[0], s@[1]]);
        if c0 != '.' || c1 != '.' {
            assert(s@ != dotdot()) by {
                if s@ == dotdot() {
                    assert(s@[0] == dotdot()[0] && s@[1] == dotdot()[1]);
                }
            }
        }
    }
    c0 == '.' && c1 == '.'
}

/// Normalizes a segment list lexically, as `spec_normalize` says.
pub fn normalize_segments(segs: &Vec<String>) -> (r: Vec<String>)
    ensures
        seg_views(r@) == spec_normalize(seg_views(segs@)),
{
    let mut out: Vec<String> = Vec::new();
    proof {
        assert(seg_views(segs@).subrange(0, 0) =~= Seq::<Seq<char>>::empty());
        assert(seg_views(out@) =~= spec_normalize(seg_views(segs@).subrange(0, 0)));
    }
    let n = segs.len();
    let mut i: usize = 0;
    while i < n
        invariant
            n == segs@.len(),
            i <= n,
            seg_views(out@) == spec_normalize(seg_views(segs@).subrange(0, i as int)),
        decreases n - i,
    {
        let seg = &segs[i];
        let empty = seg.as_str().unicode_len() == 0;
        if empty || string_is_dot(seg) {
        } else if string_is_dotdot(seg) {
            if out.len() > 0 {
                out.pop();
            }
        } else {
            out.push(clone_string(seg));
        }
        proof {
            let all = seg_views(segs@);
            assert(all.subrange(0, i as int + 1).drop_last() =~= all.subrange(0, i as int));
            assert(all.subrange(0, i as int + 1).last() == seg@);
            if !(empty || seg@ == dot() || seg@ == dotdot()) {
                assert(seg_views(out@) =~~= spec_normalize(all.subrange(0, i as int)).push(seg@));
            }
            assert(seg_views(out@) =~~= spec_normalize(all.subrange(0, i as int + 1)));
        }
        i = i + 1;
    }
    proof {
        assert(seg_views(segs@).subrange(0, n as int) =~= seg_views(segs@));
    }
    out
}

/// Joins a segment list with `/`, as `spec_join` says.
pub fn join_segments(segs: &Vec<String>) -> (r: String)
    ensures
        r@ == spec_join(seg_views(segs@)),
{
    let mut out = String::new();
    let n = segs.len();
    let mut i: usize = 0;
    while i < n
        invariant
            n == segs@.len(),
            i <= n,
            out@ == spec_join(seg_views(segs@).subrange(0, i as int)),
        decreases n - i,
    {
        if i > 0 {
            push_char(&mut out, '/');
        }
        out.append(segs[i].as_str());
        proof {
            let all = seg_views(segs@);
            assert(all.subrange(0, i as int + 1).drop_last() =~= all.subrange(0, i as int));
            assert(all.subrange(0, i as int + 1).last() == all[i as int]);
            if i == 0 {
                assert(out@ =~= all[0]);
            } else {
                assert(out@ =~= spec_join(all.subrange(0, i as int)) + seq!['/'] + all[i as int]);
            }
            assert(out@ == spec_join(all.subrange(0, i as int + 1)));
        }
        i = i + 1;
    }
    proof {
        assert(seg_views(segs@).subrange(0, n as int) =~= seg_views(segs@));
    }
    out
}

/// The canonical spelling of a path, used as the module cache key.
pub fn canonicalize_path(p: &str) -> (r: String)
    ensures
        r@ == spec_canonical(p@),
{
    let segs = split_segments(p);
    let norm = normalize_segments(&segs);
    join_segments(&norm)
}

/// A segment with no separator in it.
pub open spec fn seg_slash_free(s: Seq<char>) -> bool {
    forall|k: int| 0 <= k < s.len() ==> s[k] != '/'
}

/// Every segment of the list is separator-free.
pub open spec fn all_slash_free(segs: Seq<Seq<char>>) -> bool {
    forall|i: int| 0 <= i < segs.len() ==> seg_slash_free(#[trigger] segs[i])
}

/// A segment that survives normalization: nonempty, not `.`, not
/// `..`, and separator-free.
pub open spec fn ordinary_seg(s: Seq<char>) -> bool {
    s.len() > 0 && s != dot() && s != dotdot() && seg_slash_free(s)
}

/// Splitting never puts a separator inside a segment.
proof fn lemma_split_slash_free(s: Seq<char>)
    ensures
        all_slash_free(spec_split(s)),
    decreases s.len(),
{
    if s.len() == 0 {
        assert(seg_slash_free(spec_split(s)[0]));
    } else {
        lemma_split_slash_free(s.drop_last());
        lemma_split_nonempty(s.drop_last());
        let rest = spec_split(s.drop_last());
        if s.last() == '/' {
            assert forall|i: int| 0 <= i < spec_split(s).len() implies seg_slash_free(
                #[trigger] spec_split(s)[i],
            ) by {
                if i < rest.len() {
                    assert(spec_split(s)[i] == rest[i]);
                } else {
                    assert(spec_split(s)[i] =~= Seq::<char>::empty());
                }
            }
        } else {
            assert forall|i: int| 0 <= i < spec_split(s).len() implies seg_slash_free(
                #[trigger] spec_split(s)[i],
            ) by {
                if i < rest.len() - 1 {
                    assert(spec_split(s)[i] == rest[i]);
                } else {
                    assert(spec_split(s)[i] == rest.last().push(s.last()));
                    assert(seg_slash_free(rest[rest.len() - 1]));
                }
            }
        }
    }
}

/// Every segment normalization keeps is ordinary (when no input
/// segment hides a separator).
proof fn lemma_normalize_ordinary(segs: Seq<Seq<char>>)
    requires
        all_slash_free(segs),
    ensures
        forall|i: int|
            0 <= i < spec_normalize(segs).len() ==> ordinary_seg(#[trigger] spec_normalize(segs)[i]),
    decreases segs.len(),
{
    if segs.len() > 0 {
        assert(all_slash_free(segs.drop_last())) by {
            assert forall|i: int| 0 <= i < segs.drop_last().len() implies seg_slash_free(
                #[trigger] segs.drop_last()[i],
            ) by {
                assert(segs.drop_last()[i] == segs[i]);
            }
        }
        lemma_normalize_ordinary(segs.drop_last());
        let rest = spec_normalize(segs.drop_last());
        let s = segs.last();
        if s.len() == 0 || s == dot() {
        } else if s == dotdot() {
            assert forall|i: int| 0 <= i < spec_normalize(segs).len() implies ordinary_seg(
                #[trigger] spec_normalize(segs)[i],
            ) by {
                assert(spec_normalize(segs)[i] == rest[i]);
            }
        } else {
            assert(seg_slash_free(segs[segs.len() - 1]));
            assert forall|i: int| 0 <= i < spec_normalize(segs).len() implies ordinary_seg(
                #[trigger] spec_normalize(segs)[i],
            ) by {
                if i < rest.len() {
                    assert(spec_normalize(segs)[i] == rest[i]);
                } else {
                    assert(spec_normalize(segs)[i] == s);
                }
            }
        }
    }
}

/// Normalization leaves a list of ordinary segments alone.
proof fn lemma_normalize_identity(segs: Seq<Seq<char>>)
    requires
        forall|i: int| 0 <= i < segs.len() ==> ordinary_seg(#[trigger] segs[i]),
    ensures
        spec_normalize(segs) == segs,
    decreases segs.len(),
{
    if segs.len() > 0 {
        assert forall|i: int| 0 <= i < segs.drop_last().len() implies ordinary_seg(
            #[trigger] segs.drop_last()[i],
        ) by {
            assert(segs.drop_last()[i] == segs[i]);
        }
        lemma_normalize_identity(segs.drop_last());
        assert(ordinary_seg(segs[segs.len() - 1]));
        assert(spec_normalize(segs) =~= segs);
    }
}

/// Splitting a separator-free string gives that one segment back.
proof fn lemma_split_single(s: Seq<char>)
    requires
        seg_slash_free(s),
    ensures
        spec_split(s) == seq![s],
    decreases s.len(),
{
    if s.len() == 0 {
        assert(spec_split(s) =~~= seq![s]);
    } else {
        assert(seg_slash_free(s.drop_last())) by {
            assert forall|k: int| 0 <= k < s.drop_last().len() implies s.drop_last()[k] != '/' by {
                assert(s.drop_last()[k] == s[k]);
            }
        }
        lemma_split_single(s.drop_last());
        assert(s[s.len() - 1] != '/');
        assert(s.drop_last().push(s.last()) =~= s);
        assert(spec_split(s) =~~= seq![s]);
    }
}

/// Splitting distributes over one separator followed by a
/// separator-free segment.
proof fn lemma_split_append(a: Seq<char>, b: Seq<char>)
    requires
        seg_slash_free(b),
    ensures
        spec_split(a + seq!['/'] + b) == spec_split(a).push(b),
    decreases b.len(),
{
    lemma_split_nonempty(a);
    if b.len() == 0 {
        let s = a + seq!['/'] + b;
        assert(b =~= Seq::<char>::empty());
        assert(s =~= a.push('/'));
        assert(s.drop_last() =~= a);
        assert(s.last() == '/');
        assert(spec_split(s) =~~= spec_split(a).push(b));
    } else {
        assert(seg_slash_free(b.drop_last())) by {
            assert forall|k: int| 0 <= k < b.drop_last().len() implies b.drop_last()[k] != '/' by {
                assert(b.drop_last()[k] == b[k]);
            }
        }
        lemma_split_append(a, b.drop_last());
        let s = a + seq!['/'] + b;
        assert(s.drop_last() =~= a + seq!['/'] + b.drop_last());
        assert(s.last() == b[b.len() - 1]);
        assert(s.last() != '/');
        let rest = spec_split(a).push(b.drop_last());
        assert(rest.last().push(s.last()) =~= b);
        assert(spec_split(s) =~~= spec_split(a).push(b));
    }
}

/// Joining and re-splitting a nonempty list of separator-free
/// segments is the identity.
proof fn lemma_split_join(segs: Seq<Seq<char>>)
    requires
        segs.len() >= 1,
        all_slash_free(segs),
    ensures
        spec_split(spec_join(segs)) == segs,
    decreases segs.len(),
{
    if segs.len() == 1 {
        assert(seg_slash_free(segs[0]));
        lemma_split_single(segs[0]);
        assert(spec_split(spec_join(segs)) =~~= segs);
    } else {
        assert(all_slash_free(segs.drop_last())) by {
            assert forall|i: int| 0 <= i < segs.drop_last().len() implies seg_slash_free(
                #[trigger] segs.drop_last()[i],
            ) by {
                assert(segs.drop_last()[i] == segs[i]);
            }
        }
        lemma_split_join(segs.drop_last());
        assert(seg_slash_free(segs[segs.len() - 1]));
        lemma_split_append(spec_join(segs.drop_last()), segs.last());
        assert(spec_split(spec_join(segs)) =~~= segs.drop_last().push(segs.last()));
        assert(segs.drop_last().push(segs.last()) =~= segs);
    }
}

/// Canonicalization is idempotent: the canonical spelling of a path
/// is its own canonical spelling, so a canonical key never changes by
/// being resolved again.
pub proof fn lemma_canonical_idempotent(s: Seq<char>)
    ensures
        spec_canonical(spec_canonical(s)) == spec_canonical(s),
{
    lemma_split_slash_free(s);
    lemma_normalize_ordinary(spec_split(s));
    let m = spec_normalize(spec_split(s));
    if m.len() == 0 {
        assert(spec_canonical(s) == Seq::<char>::empty());
        let e = Seq::<char>::empty();
        assert(spec_split(e) =~~= seq![e]);
        assert(seq![e].drop_last() =~= Seq::<Seq<char>>::empty());
        assert(spec_normalize(Seq::<Seq<char>>::empty()) == Seq::<Seq<char>>::empty());
        assert(seq![e].last().len() == 0);
        assert(spec_normalize(seq![e]) =~~= Seq::<Seq<char>>::empty());
        assert(spec_canonical(e) == e);
    } else {
        assert(all_slash_free(m)) by {
            assert forall|i: int| 0 <= i < m.len() implies seg_slash_free(#[trigger] m[i]) by {
                assert(ordinary_seg(m[i]));
            }
        }
        lemma_split_join(m);
        lemma_normalize_identity(m);
    }
}

/// The reserved prefix that addresses a builtin module.
pub open spec fn builtin_prefix() -> Seq<char> {
    seq!['@', 'l', 'u', 'n', 'e', '/']
}

/// Whether a requested path addresses the builtin registry.
pub open spec fn is_builtin_path(s: Seq<char>) -> bool {
    s.len() >= 6 && s.subrange(0, 6) == builtin_prefix()
}

/// ASCII lowercasing of one character (other characters unchanged).
pub open spec fn lower_char(c: char) -> char {
    if 65 <= c as u32 && c as u32 <= 90 {
        ((c as u8) + 32) as char
    } else {
        c
    }
}

/// ASCII lowercasing of a character sequence.
pub open spec fn spec_lower(s: Seq<char>) -> Seq<char> {
    s.map_values(|c: char| lower_char(c))
}

/// ASCII lowercasing of one character, executable form.
fn lower_char_exec(c: char) -> (r: char)
    ensures
        r == lower_char(c),
{
    let u = c as u32;
    if 65 <= u && u <= 90 {
        ((c as u8) + 32) as char
    } else {
        c
    }
}

/// The index of the first `/` at or after position `i`, or -1.
pub open spec fn first_slash_from(s: Seq<char>, i: int) -> int
    decreases s.len() - i when 0 <= i <= s.len()
{
    if i < 0 || i >= s.len() {
        -1
    } else if s[i] == '/' {
        i
    } else {
        first_slash_from(s, i + 1)
    }
}

proof fn lemma_first_slash_found(s: Seq<char>, i: int, j: int)
    requires
        0 <= i <= j < s.len(),
        s[j] == '/',
        forall|t: int| i <= t < j ==> s[t] != '/',
    ensures
        first_slash_from(s, i) == j,
    decreases j - i,
{
    if i < j {
        lemma_first_slash_found(s, i + 1, j);
    }
}

proof fn lemma_first_slash_none(s: Seq<char>, i: int)
    requires
        0 <= i <= s.len(),
        forall|t: int| i <= t < s.len() ==> s[t] != '/',
    ensures
        first_slash_from(s, i) == -1,
    decreases s.len() - i,
{
    if i < s.len() {
        lemma_first_slash_none(s, i + 1);
    }
}

/// The addressing form of a requested path, checked in order: the
/// builtin prefix, then a custom alias, then a plain path resolved in
/// the context's configured mode.
#[derive(Clone, PartialEq, Eq, Debug)]
pub enum PathKind {
    /// `@lune/<name>`; the registry name, lowercased.
    Builtin { name: String },
    /// `@<alias>/<rest>`, split at the first `/`.
    Aliased { alias: String, rest: String },
    /// `@...` with no `/` delimiter: malformed.
    MissingDelimiter,
    /// No reserved prefix: a filesystem path.
    Plain,
}

/// Dispatches a requested path to its addressing form, first match
/// wins: the builtin prefix (case-sensitive, name lowercased), then
/// `@alias/rest` split on the first `/` (missing delimiter is
/// malformed), then a plain path.
pub fn classify_require_path(path: &str) -> (r: PathKind)
    ensures
        is_builtin_path(path@) ==> (r matches PathKind::Builtin { name } && name@ == spec_lower(
            path@.subrange(6, path@.len() as int),
        )),
        !is_builtin_path(path@) && path@.len() > 0 && path@[0] == '@' && first_slash_from(path@, 1)
            >= 0 ==> (r matches PathKind::Aliased { alias, rest } && alias@ == path@.subrange(
            1,
            first_slash_from(path@, 1),
        ) && rest@ == path@.subrange(first_slash_from(path@, 1) + 1, path@.len() as int)),
        !is_builtin_path(path@) && path@.len() > 0 && path@[0] == '@' && first_slash_from(path@, 1)
            < 0 ==> r == PathKind::MissingDelimiter,
        path@.len() == 0 || path@[0] != '@' ==> r == PathKind::Plain,
{
    let n = path.unicode_len();
    if n == 0 {
        return PathKind::Plain;
    }
    if path.get_char(0) != '@' {
        return PathKind::Plain;
    }
    if n >= 6 && path.get_char(1) == 'l' && path.get_char(2) == 'u' && path.get_char(3) == 'n'
        && path.get_char(4) == 'e' && path.get_char(5) == '/' {
        proof {
            assert(path@.subrange(0, 6) =~= builtin_prefix());
        }
        let mut name = String::new();
        proof {
            assert(path@.subrange(6, 6) =~= Seq::<char>::empty());
            assert(name@ =~= spec_lower(path@.subrange(6, 6)));
        }
        let mut i: usize = 6;
        while i < n
            invariant
                n == path@.len(),
                6 <= i <= n,
                name@ == spec_lower(path@.subrange(6, i as int)),
            decreases n - i,
        {
            let c = lower_char_exec(path.get_char(i));
            push_char(&mut name, c);
            proof {
                assert(path@.subrange(6, i as int + 1) =~= path@.subrange(6, i as int).push(
                    path@[i as int],
                ));
                assert(name@ =~= spec_lower(path@.subrange(6, i as int + 1)));
            }
            i = i + 1;
        }
        return PathKind::Builtin { name };
    }
    proof {
        if is_builtin_path(path@) {
            assert(path@[1] == builtin_prefix()[1]);
            assert(path@[2] == builtin_prefix()[2]);
            assert(path@[3] == builtin_prefix()[3]);
            assert(path@[4] == builtin_prefix()[4]);
            assert(path@[5] == builtin_prefix()[5]);
            assert(false);
        }
    }
    let mut j: usize = 1;
    while j < n
        invariant
            n == path@.len(),
            1 <= j <= n,
            path@[0] == '@',
            !is_builtin_path(path@),
            forall|t: int| 1 <= t < j ==> path@[t] != '/',
        decreases n - j,
    {
        if path.get_char(j) == '/' {
            proof {
                lemma_first_slash_found(path@, 1, j as int);
            }
            let alias = path.substring_char(1, j).to_owned();
            let rest = path.substring_char(j + 1, n).to_owned();
            return PathKind::Aliased { alias, rest };
        }
        j = j + 1;
    }
    proof {
        lemma_first_slash_none(path@, 1);
    }
    PathKind::MissingDelimiter
}

/// `base` and `path` joined by one separator, the usual spelling of
/// "path interpreted from base" before canonicalization.
pub fn join_under(base: &String, path: &str) -> (r: String)
    ensures
        r@ == base@ + seq!['/'] + path@,
{
    let mut out = clone_string(base);
    push_char(&mut out, '/');
    out.append(path);
    proof {
        assert(out@ =~= base@ + seq!['/'] + path@);
    }
    out
}

} // verus!
