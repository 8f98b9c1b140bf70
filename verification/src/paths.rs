//! Path arithmetic over plain strings: segment splitting and joining,
//! extension rewriting, and relative-specifier resolution.

use vstd::prelude::*;

verus! {

/// Index of the first `/` in `s`, or -1 when there is none.
pub open spec fn first_sep(s: Seq<char>) -> int
    decreases s.len(),
{
    if s.len() == 0 {
        -1
    } else if s[0] == '/' {
        0
    } else {
        let r = first_sep(s.drop_first());
        if r == -1 {
            -1
        } else {
            r + 1
        }
    }
}

pub proof fn lemma_first_sep_char(s: Seq<char>, i: int)
    requires
        0 <= i < s.len(),
        s[i] == '/',
        forall|j: int| 0 <= j < i ==> s[j] != '/',
    ensures
        first_sep(s) == i,
    decreases s.len(),
{
    if i == 0 {
    } else {
        assert(forall|j: int| 0 <= j < i - 1 ==> s.drop_first()[j] == s[j + 1]);
        lemma_first_sep_char(s.drop_first(), i - 1);
    }
}

pub proof fn lemma_first_sep_none(s: Seq<char>)
    requires
        forall|j: int| 0 <= j < s.len() ==> s[j] != '/',
    ensures
        first_sep(s) == -1,
    decreases s.len(),
{
    if s.len() > 0 {
        assert(forall|j: int| 0 <= j < s.drop_first().len() ==> s.drop_first()[j] == s[j + 1]);
        lemma_first_sep_none(s.drop_first());
    }
}

/// The segments of `s`, split on `/`. An empty string has one empty segment.
pub open spec fn split_segs(s: Seq<char>) -> Seq<Seq<char>>
    decreases s.len(),
{
    let i = first_sep(s);
    if i < 0 {
        seq![s]
    } else if 0 <= i < s.len() {
        seq![s.subrange(0, i)] + split_segs(s.subrange(i + 1, s.len() as int))
    } else {
        seq![s]
    }
}

pub proof fn lemma_split_segs_len(s: Seq<char>)
    ensures
        split_segs(s).len() >= 1,
    decreases s.len(),
{
    let i = first_sep(s);
    if 0 <= i < s.len() {
        lemma_split_segs_len(s.subrange(i + 1, s.len() as int));
    }
}

/// Joins segments with `/` between them.
pub open spec fn join_segs(segs: Seq<Seq<char>>) -> Seq<char>
    decreases segs.len(),
{
    if segs.len() == 0 {
        Seq::empty()
    } else if segs.len() == 1 {
        segs[0]
    } else {
        join_segs(segs.drop_last()) + seq!['/'] + segs.last()
    }
}

/// Finds the first `/` at or after `from`, scanning executable text.
fn find_sep(s: &str, from: usize) -> (r: Option<usize>)
    requires
        from <= s@.len(),
    ensures
        r matches Some(i) ==> from <= i < s@.len() && s@[i as int] == '/' && (forall|j: int|
            from <= j < i ==> s@[j] != '/'),
        r is None ==> forall|j: int| from <= j < s@.len() ==> s@[j] != '/',
{
    let n: usize = s.unicode_len();
    let mut i: usize = from;
    while i < n
        invariant
            from <= i <= n,
            n == s@.len(),
            forall|j: int| from <= j < i ==> s@[j] != '/',
        decreases n - i,
    {
        if s.get_char(i) == '/' {
            return Some(i);
        }
        i += 1;
    }
    None
}

/// Splits a path into its `/`-separated segments.
pub fn split_path(s: &str) -> (r: Vec<String>)
    ensures
        r.deep_view() == split_segs(s@),
        r.len() >= 1,
    decreases s@.len(),
{
    proof {
        lemma_split_segs_len(s@);
    }
    match find_sep(s, 0) {
        None => {
            proof {
                lemma_first_sep_none(s@);
            }
            let seg = s.to_owned();
            let r = vec![seg];
            assert(r.deep_view() =~= split_segs(s@));
            r
        },
        Some(i) => {
            proof {
                lemma_first_sep_char(s@, i as int);
            }
            let n: usize = s.unicode_len();
            let head = s.substring_char(0, i).to_owned();
            let rest = s.substring_char(i + 1, n);
            let mut r = split_path(rest);
            r.insert(0, head);
            assert(r.deep_view() =~= split_segs(s@));
            r
        },
    }
}

/// Joins segments back into a single path string.
pub fn join_path(segs: &Vec<String>) -> (r: String)
    ensures
        r@ == join_segs(segs.deep_view()),
{
    let mut r = String::new();
    let n: usize = segs.len();
    let mut i: usize = 0;
    while i < n
        invariant
            0 <= i <= n,
            n == segs.len(),
            r@ == join_segs(segs.deep_view().subrange(0, i as int)),
        decreases n - i,
    {
        if i > 0 {
            r.append("/");
        }
        r.append(segs[i].as_str());
        proof {
            reveal_strlit("/");
            let pre = segs.deep_view().subrange(0, i as int);
            let post = segs.deep_view().subrange(0, (i + 1) as int);
            assert(post.drop_last() =~= pre);
            assert(post.last() == segs.deep_view()[i as int]);
        }
        i += 1;
    }
    proof {
        assert(segs.deep_view().subrange(0, n as int) =~= segs.deep_view());
    }
    r
}

/// Index of the last `.` in a file name, or -1 when there is none.
pub open spec fn last_dot(name: Seq<char>) -> int
    decreases name.len(),
{
    if name.len() == 0 {
        -1
    } else if name.last() == '.' {
        name.len() - 1
    } else {
        last_dot(name.drop_last())
    }
}

pub proof fn lemma_last_dot_char(name: Seq<char>, i: int)
    requires
        0 <= i < name.len(),
        name[i] == '.',
        forall|j: int| i < j < name.len() ==> name[j] != '.',
    ensures
        last_dot(name) == i,
    decreases name.len(),
{
    if i == name.len() - 1 {
    } else {
        lemma_last_dot_char(name.drop_last(), i);
    }
}

pub proof fn lemma_last_dot_none(name: Seq<char>)
    requires
        forall|j: int| 0 <= j < name.len() ==> name[j] != '.',
    ensures
        last_dot(name) == -1,
    decreases name.len(),
{
    if name.len() > 0 {
        lemma_last_dot_none(name.drop_last());
    }
}

/// A file name's stem: everything before the last `.`, unless that dot is
/// the leading character or absent, in which case the whole name.
pub open spec fn stem_of(name: Seq<char>) -> Seq<char> {
    if last_dot(name) > 0 {
        name.subrange(0, last_dot(name))
    } else {
        name
    }
}

/// A file name with its extension rewritten: the stem, a dot, then `ext`.
pub open spec fn with_ext(name: Seq<char>, ext: Seq<char>) -> Seq<char> {
    stem_of(name) + seq!['.'] + ext
}

/// Finds the last `.` of an executable file name.
fn find_last_dot(name: &str) -> (r: Option<usize>)
    ensures
        r matches Some(i) ==> i < name@.len() && last_dot(name@) == i,
        r is None ==> last_dot(name@) == -1,
{
    let n: usize = name.unicode_len();
    let mut i: usize = n;
    while i > 0
        invariant
            0 <= i <= n,
            n == name@.len(),
            forall|j: int| i <= j < n ==> name@[j] != '.',
        decreases i,
    {
        i -= 1;
        if name.get_char(i) == '.' {
            proof {
                lemma_last_dot_char(name@, i as int);
            }
            return Some(i);
        }
    }
    proof {
        lemma_last_dot_none(name@);
    }
    None
}

/// Rewrites a file name's extension: the stem is kept and the trailing
/// extension replaced. A leading dot marks a hidden name, not an extension.
pub fn set_ext(name: &str, ext: &str) -> (r: String)
    ensures
        r@ == with_ext(name@, ext@),
{
    let stem: &str = match find_last_dot(name) {
        Some(i) => {
            if i > 0 {
                name.substring_char(0, i)
            } else {
                name
            }
        },
        None => name,
    };
    let mut r = stem.to_owned();
    r.append(".");
    r.append(ext);
    proof {
        reveal_strlit(".");
        assert(r@ =~= with_ext(name@, ext@));
    }
    r
}

/// The extension of a file name: the part after the last `.`, provided that
/// dot is neither leading nor absent.
pub open spec fn ext_of(name: Seq<char>) -> Option<Seq<char>> {
    if last_dot(name) > 0 {
        Some(name.subrange(last_dot(name) + 1, name.len() as int))
    } else {
        None
    }
}

/// Extracts a file name's extension, when it has one.
pub fn get_ext(name: &str) -> (r: Option<String>)
    ensures
        r matches Some(e) ==> ext_of(name@) matches Some(v) && e@ == v,
        r is None ==> ext_of(name@) is None,
{
    match find_last_dot(name) {
        Some(i) => {
            if i > 0 {
                let n: usize = name.unicode_len();
                let e = name.substring_char(i + 1, n).to_owned();
                assert(e@ =~= name@.subrange(i + 1, name@.len() as int));
                Some(e)
            } else {
                None
            }
        },
        None => None,
    }
}

/// Normalises specifier segments against a base directory: `.` keeps the
/// directory, `..` drops its last segment, anything else descends.
pub open spec fn norm_segs(acc: Seq<Seq<char>>, segs: Seq<Seq<char>>) -> Seq<Seq<char>>
    decreases segs.len(),
{
    if segs.len() == 0 {
        acc
    } else {
        let h = segs.first();
        let acc2 = if h == seq!['.'] {
            acc
        } else if h == seq!['.', '.'] {
            if acc.len() == 0 {
                acc
            } else {
                acc.drop_last()
            }
        } else {
            acc.push(h)
        };
        norm_segs(acc2, segs.drop_first())
    }
}

/// Processing segments one at a time agrees with processing them all at once.
pub proof fn lemma_norm_push(acc: Seq<Seq<char>>, segs: Seq<Seq<char>>, x: Seq<char>)
    ensures
        norm_segs(acc, segs.push(x)) == norm_segs(norm_segs(acc, segs), seq![x]),
    decreases segs.len(),
{
    if segs.len() == 0 {
        assert(segs.push(x) =~= seq![x]);
    } else {
        assert(segs.push(x).drop_first() =~= segs.drop_first().push(x));
        assert(segs.push(x).first() == segs.first());
        let h = segs.first();
        let acc2 = if h == seq!['.'] {
            acc
        } else if h == seq!['.', '.'] {
            if acc.len() == 0 {
                acc
            } else {
                acc.drop_last()
            }
        } else {
            acc.push(h)
        };
        lemma_norm_push(acc2, segs.drop_first(), x);
    }
}

/// Normalising a single segment, written out case by case.
pub proof fn lemma_norm_one(acc: Seq<Seq<char>>, x: Seq<char>)
    ensures
        norm_segs(acc, seq![x]) == (if x == seq!['.'] {
            acc
        } else if x == seq!['.', '.'] {
            if acc.len() == 0 {
                acc
            } else {
                acc.drop_last()
            }
        } else {
            acc.push(x)
        }),
{
    assert(seq![x].drop_first() =~= Seq::<Seq<char>>::empty());
    assert(seq![x].first() == x);
    let acc2 = if x == seq!['.'] {
        acc
    } else if x == seq!['.', '.'] {
        if acc.len() == 0 {
            acc
        } else {
            acc.drop_last()
        }
    } else {
        acc.push(x)
    };
    assert(norm_segs(acc2, Seq::<Seq<char>>::empty()) == acc2);
}

/// One normalisation step over the executable accumulator.
fn norm_step(acc: &mut Vec<String>, seg: String)
    ensures
        final(acc).deep_view() == norm_segs(old(acc).deep_view(), seq![seg@]),
{
    let ghost pre = old(acc).deep_view();
    let ghost sv = seg@;
    proof {
        reveal_strlit(".");
        reveal_strlit("..");
        lemma_norm_one(pre, sv);
    }
    let dot: String = ".".to_owned();
    let dotdot: String = "..".to_owned();
    proof {
        assert(dot@ =~= seq!['.']);
        assert(dotdot@ =~= seq!['.', '.']);
    }
    if seg == dot {
    } else if seg == dotdot {
        if acc.len() > 0 {
            acc.pop();
            assert(acc.deep_view() =~= pre.drop_last());
        } else {
            assert(acc.deep_view() =~= pre);
        }
    } else {
        acc.push(seg);
        assert(acc.deep_view() =~= pre.push(sv));
    }
}

/// The script extension forced onto every resolved import.
pub open spec fn js_ext() -> Seq<char> {
    seq!['j', 's']
}

/// Resolution of a raw import specifier against the file that imports it:
/// the base file's parent directory, extended by the specifier's segments
/// with `.`/`..` normalisation, with the script extension forced onto the
/// final segment.
pub open spec fn resolve_spec(base: Seq<char>, specifier: Seq<char>) -> Seq<char> {
    let dir = split_segs(base).drop_last();
    let out = norm_segs(dir, split_segs(specifier));
    if out.len() == 0 {
        with_ext(Seq::empty(), js_ext())
    } else {
        join_segs(out.drop_last().push(with_ext(out.last(), js_ext())))
    }
}

/// Resolves an import specifier relative to the importing file, forcing the
/// fixed script extension. Bare names resolve beside the importing file;
/// there is no package-root lookup and no extension sniffing.
pub fn resolve(base: &str, specifier: &str) -> (r: String)
    ensures
        r@ == resolve_spec(base@, specifier@),
{
    let mut acc = split_path(base);
    acc.pop();
    let ghost dir = split_segs(base@).drop_last();
    assert(acc.deep_view() =~= dir);
    let segs = split_path(specifier);
    let n: usize = segs.len();
    let mut i: usize = 0;
    while i < n
        invariant
            0 <= i <= n,
            n == segs.len(),
            segs.deep_view() == split_segs(specifier@),
            acc.deep_view() == norm_segs(dir, segs.deep_view().subrange(0, i as int)),
        decreases n - i,
    {
        let seg = segs[i].clone();
        proof {
            let done = segs.deep_view().subrange(0, i as int);
            lemma_norm_push(dir, done, seg@);
            assert(done.push(seg@) =~= segs.deep_view().subrange(0, (i + 1) as int));
        }
        norm_step(&mut acc, seg);
        i += 1;
    }
    proof {
        assert(segs.deep_view().subrange(0, n as int) =~= segs.deep_view());
    }
    if acc.len() == 0 {
        let r = set_ext("", "js");
        proof {
            reveal_strlit("");
            reveal_strlit("js");
            assert(""@ =~= Seq::<char>::empty());
            assert("js"@ =~= js_ext());
        }
        r
    } else {
        let last = acc.pop().unwrap();
        let ghost out = norm_segs(dir, split_segs(specifier@));
        let renamed = set_ext(last.as_str(), "js");
        proof {
            reveal_strlit("js");
            assert("js"@ =~= js_ext());
        }
        acc.push(renamed);
        proof {
            assert(acc.deep_view() =~= out.drop_last().push(with_ext(out.last(), js_ext())));
        }
        join_path(&acc)
    }
}

} // verus!
