//! Locating template files and preparing their text.
//!
//! A template file is looked up by name among the project's source
//! directories: exactly one directory must hold it.  Its raw text is then
//! wrapped as one raw-string literal together with a staleness guard that
//! re-checks the text's length at build time.  The fence is the text's own
//! longest run of `#` characters (which the file format makes the author's
//! quoting fence), and one hash longer in the custom-delimiter mode, where
//! no quoting of the author's can collide with it.

use crate::token::str_eq;
use vstd::prelude::*;
use vstd::string::StringSliceAdditionalSpecFns;

verus! {

/// A run of `k` hash characters.
pub open spec fn hashes(k: int) -> Seq<char>
    decreases k,
{
    if k <= 0 {
        Seq::empty()
    } else {
        hashes(k - 1).push('#')
    }
}

/// Whether a run of `k` hash characters starts at position `i` of `s`.
pub open spec fn hash_run_at(s: Seq<char>, i: int, k: int) -> bool {
    0 <= i && i + k <= s.len() && (forall|j: int| i <= j < i + k ==> #[trigger] s[j] == '#')
}

/// Whether `s` holds a run of `k` consecutive hash characters.
pub open spec fn has_hash_run(s: Seq<char>, k: int) -> bool {
    exists|i: int| #[trigger] hash_run_at(s, i, k)
}

/// A run of hash characters holds every shorter run.
pub broadcast proof fn lemma_hash_run_shorten(s: Seq<char>, k1: int, k2: int)
    ensures
        #![trigger has_hash_run(s, k1), has_hash_run(s, k2)]
        0 <= k2 <= k1 && has_hash_run(s, k1) ==> has_hash_run(s, k2),
{
    if 0 <= k2 <= k1 && has_hash_run(s, k1) {
        let w = choose|w: int| #[trigger] hash_run_at(s, w, k1);
        assert(hash_run_at(s, w, k2));
    }
}

/// The length of the longest run of consecutive hash characters in `x`.
#[verifier::loop_isolation(false)]
pub fn longest_hash_run(x: &str) -> (r: usize)
    ensures
        has_hash_run(x@, r as int),
        !has_hash_run(x@, r as int + 1),
{
    broadcast use lemma_hash_run_shorten;

    let n = x.unicode_len();
    let mut i: usize = 0;
    let mut cur: usize = 0;
    let mut best: usize = 0;
    proof {
        assert(has_hash_run(x@.take(0), 0)) by {
            assert(hash_run_at(x@.take(0), 0, 0));
        }
    }
    while i < n
        invariant
            cur <= i <= n,
            n == x@.len(),
            cur <= best,
            forall|j: int| i - cur <= j < i ==> x@[j] == '#',
            i - cur == 0 || x@[i - cur - 1] != '#',
            has_hash_run(x@.take(i as int), best as int),
            !has_hash_run(x@.take(i as int), best as int + 1),
        decreases n - i,
    {
        let c = x.get_char(i);
        if c == '#' {
            cur = cur + 1;
            if cur > best {
                best = cur;
            }
            proof {
                assert(x@[i as int] == '#');
                // The previous suffix run, in terms of the updated counter.
                assert(forall|j: int| i - (cur - 1) <= j < i ==> x@[j] == '#');
                assert(i - (cur - 1) == 0 || x@[i - (cur - 1) - 1] != '#');
                assert(has_hash_run(x@.take(i + 1), best as int)) by {
                    if best == cur {
                        assert(hash_run_at(x@.take(i + 1), i + 1 - best, best as int)) by {
                            assert(forall|j: int|
                                i + 1 - best <= j < i + 1 ==> #[trigger] x@.take(i + 1)[j] == '#');
                        }
                    } else {
                        let w = choose|w: int| #[trigger] hash_run_at(
                            x@.take(i as int),
                            w,
                            best as int,
                        );
                        assert(hash_run_at(x@.take(i + 1), w, best as int)) by {
                            assert(forall|j: int|
                                w <= j < w + best ==> #[trigger] x@.take(i + 1)[j] == '#') by {
                                assert(forall|j: int|
                                    w <= j < w + best ==> #[trigger] x@.take(i as int)[j] == '#');
                            }
                        }
                    }
                }
                assert(!has_hash_run(x@.take(i + 1), best as int + 1)) by {
                    if has_hash_run(x@.take(i + 1), best as int + 1) {
                        let w = choose|w: int| #[trigger] hash_run_at(
                            x@.take(i + 1),
                            w,
                            best as int + 1,
                        );
                        if w + best + 1 <= i {
                            // The run lies inside the prefix already scanned,
                            // where no run beats the previous maximum.
                            assert(hash_run_at(x@.take(i as int), w, best as int + 1)) by {
                                assert(forall|j: int|
                                    w <= j < w + best + 1 ==> #[trigger] x@.take(i as int)[j]
                                        == '#') by {
                                    assert(forall|j: int|
                                        w <= j < w + best + 1 ==> #[trigger] x@.take(i + 1)[j]
                                            == '#');
                                }
                            }
                            assert(has_hash_run(x@.take(i as int), best as int + 1));
                            assert(false);
                        } else {
                            // The run ends at position `i`, so it lies within
                            // the current suffix run of length `cur`.
                            assert(w + best + 1 == i + 1);
                            assert(forall|j: int|
                                w <= j < i + 1 ==> #[trigger] x@.take(i + 1)[j] == '#');
                            if w <= i - cur {
                                assert(x@.take(i + 1)[i - cur] == '#');
                                assert(x@[i - cur] != '#');
                            }
                            assert(w >= i + 1 - cur);
                            assert(best + 1 <= cur);
                            assert(false);
                        }
                    }
                }
            }
        } else {
            proof {
                assert(x@[i as int] != '#');
                assert(has_hash_run(x@.take(i + 1), best as int)) by {
                    let w = choose|w: int| #[trigger] hash_run_at(x@.take(i as int), w, best as int);
                    assert(hash_run_at(x@.take(i + 1), w, best as int)) by {
                        assert(forall|j: int|
                            w <= j < w + best ==> #[trigger] x@.take(i + 1)[j] == '#') by {
                            assert(forall|j: int|
                                w <= j < w + best ==> #[trigger] x@.take(i as int)[j] == '#');
                        }
                    }
                }
                assert(!has_hash_run(x@.take(i + 1), best as int + 1)) by {
                    if has_hash_run(x@.take(i + 1), best as int + 1) {
                        let w = choose|w: int| #[trigger] hash_run_at(
                            x@.take(i + 1),
                            w,
                            best as int + 1,
                        );
                        if w + best + 1 <= i {
                            assert(hash_run_at(x@.take(i as int), w, best as int + 1)) by {
                                assert(forall|j: int|
                                    w <= j < w + best + 1 ==> #[trigger] x@.take(i as int)[j]
                                        == '#') by {
                                    assert(forall|j: int|
                                        w <= j < w + best + 1 ==> #[trigger] x@.take(i + 1)[j]
                                            == '#');
                                }
                            }
                            assert(has_hash_run(x@.take(i as int), best as int + 1));
                            assert(false);
                        } else {
                            assert(x@.take(i + 1)[i as int] == '#');
                            assert(false);
                        }
                    }
                }
            }
            cur = 0;
        }
        i += 1;
    }
    proof {
        assert(x@.take(n as int) =~= x@);
    }
    best
}

/// The longest run of consecutive hash characters in `x`, capped at seven,
/// as a hash string.
pub fn count_pounds(x: &str) -> (r: &'static str)
    ensures
        exists|k: int|
            0 <= k <= 7 && r@ == hashes(k) && has_hash_run(x@, k) && (k == 7 || !has_hash_run(
                x@,
                k + 1,
            )),
{
    broadcast use lemma_hash_run_shorten;

    let best = longest_hash_run(x);
    let k: usize = if best > 7 {
        7
    } else {
        best
    };
    proof {
        reveal_with_fuel(hashes, 9);
    }
    let r = match k {
        0 => "",
        1 => "#",
        2 => "##",
        3 => "###",
        4 => "####",
        5 => "#####",
        6 => "######",
        _ => "#######",
    };
    proof {
        reveal_strlit("");
        reveal_strlit("#");
        reveal_strlit("##");
        reveal_strlit("###");
        reveal_strlit("####");
        reveal_strlit("#####");
        reveal_strlit("######");
        reveal_strlit("#######");
        assert(r@ =~= hashes(k as int));
    }
    r
}

/// Append `n` hash characters.
fn append_hashes(f: &mut String, n: usize)
    ensures
        final(f)@ == old(f)@ + hashes(n as int),
{
    let mut j: usize = 0;
    proof {
        assert(f@ =~= old(f)@ + hashes(0));
    }
    while j < n
        invariant
            j <= n,
            f@ == old(f)@ + hashes(j as int),
        decreases n - j,
    {
        f.push('#');
        proof {
            assert(hashes(j + 1) == hashes(j as int).push('#'));
            assert(f@ =~= old(f)@ + hashes(j + 1));
        }
        j += 1;
    }
}

/// One source directory: its path and the file names it holds.
pub struct SourceDir {
    /// The directory's path.
    pub path: String,
    /// The names of the files in the directory.
    pub files: Vec<String>,
}

/// The mathematical shape of a [`SourceDir`].
#[verifier::ext_equal]
pub struct GDir {
    /// The directory's path.
    pub path: Seq<char>,
    /// The names of the files in the directory.
    pub files: Seq<Seq<char>>,
}

impl View for SourceDir {
    type V = GDir;

    open spec fn view(&self) -> GDir {
        GDir { path: self.path@, files: Seq::new(self.files@.len(), |i: int| self.files@[i]@) }
    }
}

/// Whether the directory holds a file of this name.
pub open spec fn dir_has(d: GDir, name: Seq<char>) -> bool {
    exists|i: int| 0 <= i < d.files.len() && #[trigger] d.files[i] == name
}

/// A template file that should resolve uniquely did not.
#[derive(Debug, PartialEq, Eq)]
pub enum ResolveError {
    /// No searched directory holds a file of this name.
    NoSuchTemplate(String),
    /// More than one searched directory holds a file of this name.
    AmbiguousTemplate(String),
}

impl ResolveError {
    /// The human-readable description of this error, naming the violated
    /// expectation.
    pub fn message(&self) -> (r: String)
        ensures
            r@ == match self {
                ResolveError::NoSuchTemplate(n) => "no template file named "@ + n@ + " exists"@,
                ResolveError::AmbiguousTemplate(n) => "multiple files named "@ + n@
                    + " exist: each template file must have a unique name"@,
            },
    {
        match self {
            ResolveError::NoSuchTemplate(n) => {
                let mut m = String::from_str("no template file named ");
                m.append(n.as_str());
                m.append(" exists");
                m
            },
            ResolveError::AmbiguousTemplate(n) => {
                let mut m = String::from_str("multiple files named ");
                m.append(n.as_str());
                m.append(" exist: each template file must have a unique name");
                m
            },
        }
    }
}

/// Whether the name resolves in the directory at this index.
fn dir_contains(d: &SourceDir, name: &str) -> (r: bool)
    ensures
        r == dir_has(d@, name@),
{
    let n = d.files.len();
    let mut i: usize = 0;
    while i < n
        invariant
            i <= n,
            n == d.files@.len(),
            forall|k: int| 0 <= k < i ==> d@.files[k] != name@,
        decreases n - i,
    {
        if str_eq(d.files[i].as_str(), name) {
            proof {
                assert(d@.files[i as int] == name@);
            }
            return true;
        }
        i += 1;
    }
    proof {
        if dir_has(d@, name@) {
            let w = choose|w: int| 0 <= w < d@.files.len() && #[trigger] d@.files[w] == name@;
            assert(d@.files[w] != name@);
        }
    }
    false
}

/// Locate the template file `name` among the searched directories: exactly
/// one directory must hold it.  Returns that directory's path; fails with
/// a missing-template error when none holds it and an ambiguity error when
/// more than one does.
#[verifier::loop_isolation(false)]
pub fn find_template_file(dirs: &Vec<SourceDir>, name: &str) -> (r: Result<String, ResolveError>)
    ensures
        match r {
            Ok(p) => exists|i: int|
                0 <= i < dirs@.len() && dir_has(#[trigger] dirs@[i]@, name@) && p@ == dirs@[i]@.path
                    && (forall|j: int|
                    0 <= j < dirs@.len() && j != i ==> !dir_has(#[trigger] dirs@[j]@, name@)),
            Err(ResolveError::NoSuchTemplate(n)) => n@ == name@ && (forall|i: int|
                0 <= i < dirs@.len() ==> !dir_has(#[trigger] dirs@[i]@, name@)),
            Err(ResolveError::AmbiguousTemplate(n)) => n@ == name@ && (exists|i: int, j: int|
                0 <= i < j < dirs@.len() && dir_has(#[trigger] dirs@[i]@, name@) && dir_has(
                    #[trigger] dirs@[j]@,
                    name@,
                )),
        },
{
    let n = dirs.len();
    let mut i: usize = 0;
    let mut found: Option<usize> = None;
    while i < n
        invariant
            i <= n,
            match found {
                Some(w) => w < i && dir_has(dirs@[w as int]@, name@) && (forall|k: int|
                    0 <= k < i && k != w ==> !dir_has(#[trigger] dirs@[k]@, name@)),
                None => forall|k: int| 0 <= k < i ==> !dir_has(#[trigger] dirs@[k]@, name@),
            },
        decreases n - i,
    {
        if dir_contains(&dirs[i], name) {
            match found {
                Some(w) => {
                    return Err(ResolveError::AmbiguousTemplate(String::from_str(name)));
                },
                None => {
                    found = Some(i);
                },
            }
        }
        i += 1;
    }
    match found {
        Some(w) => Ok(dirs[w].path.clone()),
        None => Err(ResolveError::NoSuchTemplate(String::from_str(name))),
    }
}

/// The path text with the host-language source extension appended.
pub fn add_rs_extension(p: &str) -> (r: String)
    ensures
        r@ == p@ + ".rs"@,
{
    let mut out = String::from_str(p);
    out.append(".rs");
    out
}


/// The text with every occurrence of `from` replaced by `to`, scanning left
/// to right without overlap; an empty `from` replaces nothing.
pub open spec fn spec_replace(s: Seq<char>, from: Seq<char>, to: Seq<char>) -> Seq<char>
    decreases s.len(),
{
    if from.len() == 0 || s.len() == 0 {
        s
    } else if from.len() <= s.len() && s.take(from.len() as int) == from {
        to + spec_replace(s.skip(from.len() as int), from, to)
    } else {
        seq![s[0]] + spec_replace(s.drop_first(), from, to)
    }
}

/// Whether `from` occurs in `s` starting at position `i`.
pub(crate) fn match_at(s: &str, i: usize, from: &str) -> (r: bool)
    requires
        i <= s@.len(),
    ensures
        r == (i + from@.len() <= s@.len() && s@.subrange(
            i as int,
            i + from@.len(),
        ) == from@),
{
    let n = s.unicode_len();
    let flen = from.unicode_len();
    if flen > n || i > n - flen {
        proof {
            assert(i + from@.len() > s@.len());
        }
        return false;
    }
    let mut j: usize = 0;
    while j < flen
        invariant
            j <= flen,
            i + flen <= n,
            n == s@.len(),
            flen == from@.len(),
            forall|k: int| 0 <= k < j ==> s@[i + k] == from@[k],
        decreases flen - j,
    {
        if s.get_char(i + j) != from.get_char(j) {
            proof {
                assert(s@[i + j] != from@[j as int]);
                if s@.subrange(i as int, i + from@.len()) == from@ {
                    assert(s@.subrange(i as int, i + from@.len())[j as int] == from@[j as int]);
                }
            }
            return false;
        }
        j += 1;
    }
    proof {
        assert(s@.subrange(i as int, i + from@.len()) =~= from@);
    }
    true
}

/// The text with every occurrence of `from` replaced by `to`.
#[verifier::loop_isolation(false)]
pub fn replace_all(s: &str, from: &str, to: &str) -> (r: String)
    ensures
        r@ == spec_replace(s@, from@, to@),
{
    let n = s.unicode_len();
    let flen = from.unicode_len();
    if flen == 0 {
        let r = String::from_str(s);
        return r;
    }
    let mut out = String::new();
    let mut i: usize = 0;
    proof {
        assert(s@.skip(0) =~= s@);
    }
    while i < n
        invariant
            i <= n,
            out@ + spec_replace(s@.skip(i as int), from@, to@) == spec_replace(s@, from@, to@),
        decreases n - i,
    {
        if match_at(s, i, from) {
            out.append(to);
            proof {
                let suf = s@.skip(i as int);
                assert(suf.take(flen as int) =~= s@.subrange(i as int, i + flen));
                assert(suf.skip(flen as int) =~= s@.skip(i + flen));
                assert(spec_replace(suf, from@, to@) == to@ + spec_replace(
                    s@.skip(i + flen),
                    from@,
                    to@,
                ));
                assert(out@ + spec_replace(s@.skip(i + flen), from@, to@) =~= spec_replace(
                    s@,
                    from@,
                    to@,
                ));
            }
            i += flen;
        } else {
            let c = s.get_char(i);
            out.push(c);
            proof {
                let suf = s@.skip(i as int);
                assert(suf[0] == s@[i as int]);
                assert(suf.drop_first() =~= s@.skip(i + 1));
                if flen <= suf.len() {
                    assert(suf.take(flen as int) =~= s@.subrange(i as int, i + flen));
                }
                assert(spec_replace(suf, from@, to@) == seq![s@[i as int]] + spec_replace(
                    s@.skip(i + 1),
                    from@,
                    to@,
                ));
                assert(out@ + spec_replace(s@.skip(i + 1), from@, to@) =~= spec_replace(
                    s@,
                    from@,
                    to@,
                ));
            }
            i += 1;
        }
    }
    proof {
        assert(s@.skip(n as int) =~= Seq::<char>::empty());
        assert(out@ =~= spec_replace(s@, from@, to@));
    }
    out
}

/// The byte length of a string slice, as the machine reports it.
pub open spec fn byte_len(s: &str) -> int {
    s.spec_bytes().len() as usize as int
}

/// The build-time staleness guard appended to a wrapped template: it
/// re-reads the named file and checks that its byte length still matches
/// the text the template was compiled from.
pub open spec fn guard_text(pathname: Seq<char>, nbytes: int) -> Seq<char> {
    "  ({ assert_eq!("@ + crate::compile::splice_keyword() + "_str!(\""@ + pathname
        + "\").len(), "@ + crate::numbers::dec_digits(nbytes) + "); \"\"}); "@
}

/// The wrapped form of a template file's text: the text as one raw-string
/// literal, followed by the staleness guard.  In the default mode the fence
/// is `k` hashes, `k` being the text's longest hash run: the file format
/// has the author close and reopen the wrapper with raw literals of exactly
/// that fence, so the two must coincide.  In the custom-delimiter mode the
/// author writes no fence at all, the delimiters are rewritten into the
/// canonical quoting, and the fence takes one hash more than any run in the
/// text, so the wrapper cannot occur in it.
pub open spec fn spec_wrap(
    contents: Seq<char>,
    pathname: Seq<char>,
    nbytes: int,
    left: Seq<char>,
    right: Seq<char>,
    k: int,
) -> Seq<char> {
    let pounds = if left.len() == 0 {
        hashes(k)
    } else {
        hashes(k).push('#')
    };
    let body = if left.len() == 0 {
        contents
    } else {
        spec_replace(
            spec_replace(contents, left, seq!['"'] + pounds),
            right,
            seq!['r'] + pounds + seq!['"'],
        )
    };
    seq!['r'] + pounds + seq!['"'] + body + seq!['"'] + pounds + guard_text(pathname, nbytes)
}

/// Wrap a template file's text for compilation: the raw-string form whose
/// fence matches the text's longest hash run (one hash longer in the
/// custom-delimiter mode), the custom delimiters (when given) rewritten
/// into canonical quoting, and the staleness guard appended.
pub fn wrap_template_text(contents: &str, pathname: &str, left_delim: &str, right_delim: &str) -> (r:
    String)
    ensures
        exists|k: int|
            0 <= k && has_hash_run(contents@, k) && !has_hash_run(contents@, k + 1) && r@
                == spec_wrap(
                contents@,
                pathname@,
                byte_len(contents),
                left_delim@,
                right_delim@,
                k,
            ),
{
    let nbytes = contents.len();
    let run = longest_hash_run(contents);
    let ghost k = run as int;
    let mut pounds = String::new();
    append_hashes(&mut pounds, run);
    let body: String = if left_delim.is_empty() {
        String::from_str(contents)
    } else {
        pounds.push('#');
        let mut to_left = String::from_str("\"");
        to_left.append(pounds.as_str());
        let mut to_right = String::from_str("r");
        to_right.append(pounds.as_str());
        to_right.append("\"");
        proof {
            reveal_strlit("\"");
            reveal_strlit("r");
            assert(to_left@ =~= seq!['"'] + hashes(k).push('#'));
            assert(to_right@ =~= seq!['r'] + hashes(k).push('#') + seq!['"']);
        }
        let step = replace_all(contents, left_delim, to_left.as_str());
        replace_all(step.as_str(), right_delim, to_right.as_str())
    };
    proof {
        assert(pounds@ == (if left_delim@.len() == 0 {
            hashes(k)
        } else {
            hashes(k).push('#')
        }));
        assert(body@ == (if left_delim@.len() == 0 {
            contents@
        } else {
            spec_replace(
                spec_replace(contents@, left_delim@, seq!['"'] + hashes(k).push('#')),
                right_delim@,
                seq!['r'] + hashes(k).push('#') + seq!['"'],
            )
        }));
    }
    let mut out = String::new();
    out.push('r');
    out.append(pounds.as_str());
    out.push('"');
    out.append(body.as_str());
    out.push('"');
    out.append(pounds.as_str());
    let ghost mid = out@;
    proof {
        assert(mid =~= seq!['r'] + pounds@ + seq!['"'] + body@ + seq!['"'] + pounds@);
    }
    out.append("  ({ assert_eq!(");
    out.push('i');
    out.push('n');
    out.push('c');
    out.push('l');
    out.push('u');
    out.push('d');
    out.push('e');
    out.append("_str!(\"");
    out.append(pathname);
    out.append("\").len(), ");
    crate::numbers::append_dec_u128(&mut out, nbytes as u128);
    out.append("); \"\"}); ");
    proof {
        assert(out@ =~= mid + guard_text(pathname@, nbytes as int));
        assert(nbytes as int == byte_len(contents));
        assert(out@ =~= spec_wrap(
            contents@,
            pathname@,
            byte_len(contents),
            left_delim@,
            right_delim@,
            k,
        ));
    }
    out
}

/// The position of the last underscore at or before position `i`.
pub open spec fn last_underscore_at(s: Seq<char>, i: int) -> Option<int>
    decreases i + 1,
{
    if i < 0 || i >= s.len() {
        None
    } else if s[i] == '_' {
        Some(i)
    } else {
        last_underscore_at(s, i - 1)
    }
}

/// The template file's name derived from a generated code file's name: the
/// last underscore becomes a dot, and every `.rs` disappears.
pub open spec fn spec_template_name(s: Seq<char>) -> Seq<char> {
    let dotted = match last_underscore_at(s, s.len() - 1) {
        None => s,
        Some(i) => s.update(i, '.'),
    };
    spec_replace(dotted, ".rs"@, Seq::empty())
}

/// The template file's name derived from a generated code file's name.
#[verifier::loop_isolation(false)]
pub fn template_name_of(tname: &str) -> (r: String)
    ensures
        r@ == spec_template_name(tname@),
{
    let n = tname.unicode_len();
    // Find the last underscore.
    let mut i: usize = n;
    let mut found = false;
    while i > 0 && !found
        invariant
            i <= n,
            n == tname@.len(),
            !found ==> last_underscore_at(tname@, n - 1) == last_underscore_at(tname@, i - 1),
            found ==> i < n + 1 && 1 <= i && last_underscore_at(tname@, n - 1) == Some(i - 1),
        decreases i, 1int - if found { 1int } else { 0int },
    {
        if tname.get_char(i - 1) == '_' {
            found = true;
        } else {
            i -= 1;
        }
    }
    // Rewrite the last underscore into a dot.
    let mut dotted = String::new();
    let ghost gdot = match last_underscore_at(tname@, tname@.len() - 1) {
        None => tname@,
        Some(w) => tname@.update(w, '.'),
    };
    let mut j: usize = 0;
    while j < n
        invariant
            j <= n,
            n == tname@.len(),
            gdot.len() == n,
            dotted@ == gdot.take(j as int),
            found ==> 1 <= i <= n && last_underscore_at(tname@, n - 1) == Some(i - 1),
            !found ==> last_underscore_at(tname@, n - 1) is None,
        decreases n - j,
    {
        let c = tname.get_char(j);
        if found && j == i - 1 {
            dotted.push('.');
        } else {
            dotted.push(c);
        }
        proof {
            assert(dotted@ =~= gdot.take(j + 1));
        }
        j += 1;
    }
    proof {
        assert(gdot.take(n as int) =~= gdot);
    }
    let r = replace_all(dotted.as_str(), ".rs", "");
    proof {
        reveal_strlit("");
        assert(""@ =~= Seq::<char>::empty());
        assert(dotted@ == gdot);
    }
    r
}

} // verus!
