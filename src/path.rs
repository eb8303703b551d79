//! Canonical forms of filesystem paths, and matching a directory to a workspace root.
use vstd::prelude::*;
use crate::table::Table;
use crate::text::{
    ascii_lower, ascii_lower_char, chars_of, has_prefix, replace_char, starts_with, string_of,
    string_of_range, to_ascii_lowercase, trim_end_char, lower_char,
};

verus! {

/// `s` begins with an ASCII letter, a colon and a slash.
pub open spec fn is_drive_path(s: Seq<char>) -> bool {
    s.len() >= 3 && (('a' <= s[0] && s[0] <= 'z') || ('A' <= s[0] && s[0] <= 'Z')) && s[1] == ':'
        && s[2] == '/'
}

/// Backslashes made forward slashes, trailing slashes removed.
pub open spec fn slashed(s: Seq<char>) -> Seq<char> {
    trim_end_char(replace_char(s, '\\', '/'), '/')
}

/// `a` without a leading device-namespace prefix; the UNC form keeps its `//`.
pub open spec fn strip_device_prefix(a: Seq<char>) -> Seq<char> {
    let l = ascii_lower(a);
    if has_prefix(l, "//?/unc/"@) {
        "//"@ + a.subrange(8, a.len() as int)
    } else if has_prefix(l, "//?/"@) || has_prefix(l, "//./"@) {
        a.subrange(4, a.len() as int)
    } else {
        a
    }
}

/// Drive-letter and UNC paths compare without case; others keep it.
pub open spec fn fold_case(b: Seq<char>) -> Seq<char> {
    if is_drive_path(b) || has_prefix(b, "//"@) {
        ascii_lower(b)
    } else {
        b
    }
}

/// The normal form of a path.
pub open spec fn normalized_path(s: Seq<char>) -> Seq<char> {
    let a = slashed(s);
    if a.len() == 0 {
        Seq::empty()
    } else {
        fold_case(strip_device_prefix(a))
    }
}

/// Whether a normalised directory `cwd` lies at or under the normalised `root`.
pub open spec fn root_matches(root: Seq<char>, cwd: Seq<char>) -> bool {
    root.len() > 0 && (root == cwd || (cwd.len() > root.len() && has_prefix(cwd, root)
        && cwd[root.len() as int] == '/'))
}

/// Whether some root of `roots` matches `cwd`.
pub open spec fn some_root_matches(roots: Seq<(String, String)>, cwd: Seq<char>) -> bool {
    exists|i: int| 0 <= i < roots.len() && root_matches(#[trigger] roots[i].1@, cwd)
}

/// `w` has a root that matches `cwd`, and no matching root is longer.
pub open spec fn is_best_root(roots: Seq<(String, String)>, cwd: Seq<char>, w: Seq<char>) -> bool {
    exists|i: int|
        0 <= i < roots.len() && #[trigger] roots[i].0@ == w && root_matches(roots[i].1@, cwd) && (
        forall|j: int|
            0 <= j < roots.len() && root_matches(#[trigger] roots[j].1@, cwd) ==> roots[j].1@.len()
                <= roots[i].1@.len())
}

proof fn lemma_trim_end_step(s: Seq<char>, end: int)
    requires
        0 < end <= s.len(),
        s[end - 1] == '/',
    ensures
        trim_end_char(s.subrange(0, end), '/') == trim_end_char(s.subrange(0, end - 1), '/'),
{
    assert(s.subrange(0, end).drop_last() =~= s.subrange(0, end - 1));
}

/// Removes trailing `/` characters from `w`; returns the length that is left.
fn trimmed_end(w: &Vec<char>) -> (r: usize)
    ensures
        r <= w@.len(),
        w@.subrange(0, r as int) == trim_end_char(w@, '/'),
{
    let mut end: usize = w.len();
    assert(w@.subrange(0, end as int) =~= w@);
    while end > 0 && w[end - 1] == '/'
        invariant
            end <= w@.len(),
            trim_end_char(w@, '/') == trim_end_char(w@.subrange(0, end as int), '/'),
        decreases end,
    {
        proof {
            lemma_trim_end_step(w@, end as int);
        }
        end = end - 1;
    }
    proof {
        lemma_trim_end_fixed(w@, end as int);
    }
    end
}

proof fn lemma_trim_end_fixed(s: Seq<char>, end: int)
    requires
        0 <= end <= s.len(),
        end == 0 || s[end - 1] != '/',
    ensures
        trim_end_char(s.subrange(0, end), '/') == s.subrange(0, end),
{
}

fn is_ascii_letter(c: char) -> (r: bool)
    ensures
        r == (('a' <= c && c <= 'z') || ('A' <= c && c <= 'Z')),
{
    ('a' <= c && c <= 'z') || ('A' <= c && c <= 'Z')
}

/// The ASCII-lowercase form of the characters `v`.
fn lower_chars(v: &Vec<char>) -> (r: Vec<char>)
    ensures
        r@ == ascii_lower(v@),
{
    let mut out: Vec<char> = Vec::new();
    let mut i: usize = 0;
    while i < v.len()
        invariant
            i <= v.len(),
            out@ == ascii_lower(v@.subrange(0, i as int)),
        decreases v.len() - i,
    {
        out.push(lower_char(v[i]));
        i = i + 1;
        assert(out@ =~= ascii_lower(v@.subrange(0, i as int)));
    }
    assert(v@.subrange(0, v@.len() as int) =~= v@);
    out
}

/// The normal form of a path: forward slashes, no trailing slash, no
/// device-namespace prefix, and lower case for drive-letter and UNC paths.
pub fn normalize_root_path(value: &str) -> (r: String)
    ensures
        r@ == normalized_path(value@),
{
    proof {
        reveal_strlit("//?/unc/");
        reveal_strlit("//?/");
        reveal_strlit("//./");
        reveal_strlit("//");
    }
    let v = chars_of(value);
    let mut w: Vec<char> = Vec::new();
    let mut i: usize = 0;
    while i < v.len()
        invariant
            i <= v.len(),
            w@ == replace_char(v@.subrange(0, i as int), '\\', '/'),
        decreases v.len() - i,
    {
        if v[i] == '\\' {
            w.push('/');
        } else {
            w.push(v[i]);
        }
        i = i + 1;
        assert(w@ =~= replace_char(v@.subrange(0, i as int), '\\', '/'));
    }
    assert(v@.subrange(0, v@.len() as int) =~= v@);
    let end = trimmed_end(&w);
    if end == 0 {
        return String::new();
    }
    let a = string_of_range(&w, 0, end);
    let av = chars_of(a.as_str());
    let l = to_ascii_lowercase(a.as_str());
    let b: Vec<char> = if starts_with(l.as_str(), "//?/unc/") {
        let mut b: Vec<char> = vec!['/', '/'];
        let mut j: usize = 8;
        while j < av.len()
            invariant
                8 <= j <= av.len(),
                b@ == "//"@ + av@.subrange(8, j as int),
            decreases av.len() - j,
        {
            b.push(av[j]);
            j = j + 1;
            assert(b@ =~= "//"@ + av@.subrange(8, j as int));
        }
        b
    } else if starts_with(l.as_str(), "//?/") || starts_with(l.as_str(), "//./") {
        let mut b: Vec<char> = Vec::new();
        let mut j: usize = 4;
        while j < av.len()
            invariant
                4 <= j <= av.len(),
                b@ == av@.subrange(4, j as int),
            decreases av.len() - j,
        {
            b.push(av[j]);
            j = j + 1;
            assert(b@ =~= av@.subrange(4, j as int));
        }
        b
    } else {
        av
    };
    if b.len() == 0 {
        return String::new();
    }
    let drive = b.len() >= 3 && is_ascii_letter(b[0]) && b[1] == ':' && b[2] == '/';
    let unc = b.len() >= 2 && b[0] == '/' && b[1] == '/';
    proof {
        assert(unc == has_prefix(b@, "//"@)) by {
            if unc {
                assert(b@.subrange(0, 2) =~= "//"@);
            }
            if has_prefix(b@, "//"@) {
                assert(b@.subrange(0, 2)[0] == '/');
                assert(b@.subrange(0, 2)[1] == '/');
            }
        }
    }
    if drive || unc {
        let lb = lower_chars(&b);
        string_of(&lb)
    } else {
        string_of(&b)
    }
}

/// The form of a path used to match it against roots: the normal form of the
/// filesystem's canonical path `canonical` where there is one and it is not
/// empty, else the normal form of `value`.
pub fn normalize_path_for_matching(value: &str, canonical: Option<&str>) -> (r: String)
    ensures
        normalized_path(value@).len() == 0 ==> r@.len() == 0,
        normalized_path(value@).len() > 0 ==> r@ == match canonical {
            Some(c) if normalized_path(c@).len() > 0 => normalized_path(c@),
            _ => normalized_path(value@),
        },
{
    let normalized = normalize_root_path(value);
    if normalized.as_str().is_empty() {
        return normalized;
    }
    match canonical {
        Some(c) => {
            let n = normalize_root_path(c);
            if n.as_str().is_empty() {
                normalized
            } else {
                n
            }
        },
        None => normalized,
    }
}

/// Whether normalised `root` matches normalised `cwd`.
fn root_matches_exec(root: &str, cwd: &str) -> (r: bool)
    ensures
        r == root_matches(root@, cwd@),
{
    let rv = chars_of(root);
    let cv = chars_of(cwd);
    if rv.len() == 0 {
        return false;
    }
    if crate::text::str_eq(root, cwd) {
        return true;
    }
    cv.len() > rv.len() && starts_with(cwd, root) && cv[rv.len()] == '/'
}

/// The workspace whose root best matches the normalised directory `cwd`: a
/// root equal to it or above it at a `/`, the longest such root winning.
pub fn resolve_workspace_for_normalized_cwd(cwd: &str, roots: &Table<String>) -> (r: Option<
    String,
>)
    ensures
        r is None <==> !some_root_matches(roots.entries@, cwd@),
        r matches Some(w) ==> is_best_root(roots.entries@, cwd@, w@),
{
    let mut best: Option<usize> = None;
    let mut i: usize = 0;
    while i < roots.entries.len()
        invariant
            i <= roots.entries@.len(),
            match best {
                None => forall|j: int|
                    0 <= j < i ==> !root_matches(#[trigger] roots.entries@[j].1@, cwd@),
                Some(b) => b < i && root_matches(roots.entries@[b as int].1@, cwd@) && forall|
                    j: int,
                |
                    0 <= j < i && root_matches(#[trigger] roots.entries@[j].1@, cwd@)
                        ==> roots.entries@[j].1@.len() <= roots.entries@[b as int].1@.len(),
            },
        decreases roots.entries.len() - i,
    {
        if root_matches_exec(roots.entries[i].1.as_str(), cwd) {
            match best {
                None => {
                    best = Some(i);
                },
                Some(b) => {
                    let li = chars_of(roots.entries[i].1.as_str()).len();
                    let lb = chars_of(roots.entries[b].1.as_str()).len();
                    if li >= lb {
                        best = Some(i);
                    }
                },
            }
        }
        i = i + 1;
    }
    match best {
        None => {
            assert(!some_root_matches(roots.entries@, cwd@));
            None
        },
        Some(b) => {
            assert(some_root_matches(roots.entries@, cwd@)) by {
                assert(root_matches(roots.entries@[b as int].1@, cwd@));
            }
            Some(roots.entries[b].0.clone())
        },
    }
}

/// The form of a directory that roots are matched against: the normal form
/// of its canonical path when there is one and that is not empty, else its
/// normal form; empty when its normal form is empty.
pub open spec fn matching_form(cwd: Seq<char>, canonical: Option<Seq<char>>) -> Seq<char> {
    if normalized_path(cwd).len() == 0 {
        Seq::empty()
    } else {
        match canonical {
            Some(c) if normalized_path(c).len() > 0 => normalized_path(c),
            _ => normalized_path(cwd),
        }
    }
}

/// The workspace whose root best matches the directory `cwd`, given the
/// filesystem's canonical form of it when it has one.
pub fn resolve_workspace_for_cwd_matching(
    cwd: &str,
    canonical: Option<&str>,
    roots: &Table<String>,
) -> (r: Option<String>)
    ensures
        ({
            let n = matching_form(cwd@, match canonical {
                Some(c) => Some(c@),
                None => None,
            });
            &&& n.len() == 0 ==> r is None
            &&& n.len() > 0 ==> (r is None <==> !some_root_matches(roots.entries@, n))
            &&& r matches Some(w) ==> is_best_root(roots.entries@, n, w@)
        }),
{
    let n = normalize_path_for_matching(cwd, canonical);
    if n.as_str().is_empty() {
        return None;
    }
    resolve_workspace_for_normalized_cwd(n.as_str(), roots)
}

/// The workspace whose root best matches the directory `cwd`, compared in
/// normal form; an empty directory matches none.
pub fn resolve_workspace_for_cwd(cwd: &str, roots: &Table<String>) -> (r: Option<String>)
    ensures
        normalized_path(cwd@).len() == 0 ==> r is None,
        normalized_path(cwd@).len() > 0 ==> (r is None <==> !some_root_matches(
            roots.entries@,
            normalized_path(cwd@),
        )),
        r matches Some(w) ==> is_best_root(roots.entries@, normalized_path(cwd@), w@),
{
    let n = normalize_root_path(cwd);
    if n.as_str().is_empty() {
        return None;
    }
    resolve_workspace_for_normalized_cwd(n.as_str(), roots)
}

/// Whether a path, compared without ASCII case, begins with a device-namespace
/// prefix `//?/` or `//./`.
pub open spec fn has_device_prefix(y: Seq<char>) -> bool {
    has_prefix(ascii_lower(y), "//?/"@) || has_prefix(ascii_lower(y), "//./"@)
}

proof fn lemma_trim_end_char_prefix(s: Seq<char>, c: char)
    ensures
        trim_end_char(s, c).len() <= s.len(),
        trim_end_char(s, c) == s.subrange(0, trim_end_char(s, c).len() as int),
        trim_end_char(s, c).len() == 0 || trim_end_char(s, c).last() != c,
    decreases s.len(),
{
    if s.len() > 0 && s.last() == c {
        lemma_trim_end_char_prefix(s.drop_last(), c);
        let t = trim_end_char(s.drop_last(), c);
        assert(s.drop_last().subrange(0, t.len() as int) =~= s.subrange(0, t.len() as int));
    } else {
        assert(s.subrange(0, s.len() as int) =~= s);
    }
}

proof fn lemma_trim_end_char_fixed(s: Seq<char>, c: char)
    requires
        s.len() == 0 || s.last() != c,
    ensures
        trim_end_char(s, c) == s,
{
}

proof fn lemma_lower_idempotent(s: Seq<char>)
    ensures
        ascii_lower(ascii_lower(s)) == ascii_lower(s),
{
    assert(ascii_lower(ascii_lower(s)) =~= ascii_lower(s));
}

proof fn lemma_lower_keeps_shape(b: Seq<char>)
    ensures
        is_drive_path(ascii_lower(b)) == is_drive_path(b),
        has_prefix(ascii_lower(b), "//"@) == has_prefix(b, "//"@),
        ascii_lower(b).len() == b.len(),
        b.len() > 0 ==> ascii_lower(b).last() == ascii_lower_char(b.last()),
{
    reveal_strlit("//");
    let l = ascii_lower(b);
    if b.len() >= 2 {
        if has_prefix(b, "//"@) {
            assert(b.subrange(0, 2)[0] == b[0]);
            assert(b.subrange(0, 2)[1] == b[1]);
            assert(l.subrange(0, 2) =~= "//"@);
        }
        if has_prefix(l, "//"@) {
            assert(l.subrange(0, 2)[0] == l[0]);
            assert(l.subrange(0, 2)[1] == l[1]);
            assert(b.subrange(0, 2) =~= "//"@);
        }
    }
}

/// The normal form of a path contains no backslash and, unless empty, does
/// not end with a slash.
proof fn lemma_normal_form_shape(x: Seq<char>)
    ensures
        forall|i: int| 0 <= i < normalized_path(x).len() ==> normalized_path(x)[i] != '\\',
        normalized_path(x).len() == 0 || normalized_path(x).last() != '/',
{
    reveal_strlit("//?/unc/");
    reveal_strlit("//?/");
    reveal_strlit("//./");
    reveal_strlit("//");
    let r = replace_char(x, '\\', '/');
    let a = slashed(x);
    lemma_trim_end_char_prefix(r, '/');
    assert forall|i: int| 0 <= i < a.len() implies a[i] != '\\' by {
        assert(a[i] == r[i]);
    }
    if a.len() > 0 {
        let b = strip_device_prefix(a);
        assert forall|i: int| 0 <= i < b.len() implies b[i] != '\\' by {
            let l = ascii_lower(a);
            if has_prefix(l, "//?/unc/"@) {
                if i >= 2 {
                    assert(b[i] == a[i + 6]);
                }
            } else if has_prefix(l, "//?/"@) || has_prefix(l, "//./"@) {
                assert(b[i] == a[i + 4]);
            }
        }
        let l = ascii_lower(a);
        if b.len() > 0 {
            if has_prefix(l, "//?/unc/"@) {
                if a.len() == 8 {
                    assert(l.subrange(0, 8)[7] == l[7]);
                    assert(a.last() == a[7]);
                }
                assert(b.last() == a.last());
            } else if has_prefix(l, "//?/"@) || has_prefix(l, "//./"@) {
                if a.len() == 4 {
                    if has_prefix(l, "//?/"@) {
                        assert(l.subrange(0, 4)[3] == l[3]);
                    } else {
                        assert(l.subrange(0, 4)[3] == l[3]);
                    }
                }
                assert(b.last() == a.last());
            }
        }
        lemma_lower_keeps_shape(b);
        let y = fold_case(b);
        assert forall|i: int| 0 <= i < y.len() implies y[i] != '\\' by {
            assert(b[i] != '\\');
        }
    }
}

/// Normalising a normal form changes nothing, for every path whose normal
/// form does not itself begin with a device-namespace prefix.
pub proof fn lemma_normalize_idempotent(x: Seq<char>)
    requires
        !has_device_prefix(normalized_path(x)),
    ensures
        normalized_path(normalized_path(x)) == normalized_path(x),
{
    reveal_strlit("//?/unc/");
    reveal_strlit("//?/");
    reveal_strlit("//./");
    let y = normalized_path(x);
    lemma_normal_form_shape(x);
    if y.len() > 0 {
        assert(replace_char(y, '\\', '/') =~= y);
        lemma_trim_end_char_fixed(y, '/');
        assert(slashed(y) == y);
        let l = ascii_lower(y);
        if has_prefix(l, "//?/unc/"@) {
            assert(l.subrange(0, 4) =~= l.subrange(0, 8).subrange(0, 4));
            assert("//?/unc/"@.subrange(0, 4) =~= "//?/"@);
            assert(has_prefix(l, "//?/"@));
        }
        assert(strip_device_prefix(y) == y);
        let a = slashed(x);
        let b = strip_device_prefix(a);
        lemma_lower_keeps_shape(b);
        lemma_lower_idempotent(b);
        assert(fold_case(y) == y);
    }
}

} // verus!
