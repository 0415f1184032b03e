//! Glob patterns for choosing which resources to extract.
//!
//! A restricted glob syntax is compiled to an anchored regular expression:
//! one `*` stands for one or more non-separator characters, a run of two
//! or more `*` for one or more characters of any kind, `?` for exactly one
//! non-separator character; a backslash is normalized to the path
//! separator; ASCII alphanumerics and `<`/`>` pass through, everything
//! else is escaped. `spec_glob_regex` states the translation exactly; the
//! compiled matcher itself comes from the `regex` crate through the
//! trusted items below.

use vstd::prelude::*;

use vstd::string::StrSliceExecFns;

verus! {

/// The pattern a compiled `regex::Regex` was built from.
pub uninterp spec fn regex_pattern(r: regex::Regex) -> Seq<char>;

/// Whether the regex engine accepts a pattern. Compilation is a function
/// of the pattern alone.
pub uninterp spec fn regex_compiles(p: Seq<char>) -> bool;

/// Whether a regular expression matches a text. The result depends on the
/// pattern and the text alone.
pub uninterp spec fn regex_matches(pattern: Seq<char>, text: Seq<char>) -> bool;

#[verifier::external_type_specification]
#[verifier::external_body]
pub struct ExRegex(regex::Regex);

/// Relies on `Regex::new`: it succeeds or fails on the pattern alone, and
/// on success the compiled value is built from exactly the given pattern.
#[verifier::external_body]
fn regex_new(pattern: &str) -> (r: Option<regex::Regex>)
    ensures
        r is Some <==> regex_compiles(pattern@),
        r is Some ==> regex_pattern(r->Some_0) == pattern@,
{
    regex::Regex::new(pattern).ok()
}

/// Relies on `Regex::is_match`: whether the compiled pattern matches the
/// text, a function of the two alone.
#[verifier::external_body]
fn regex_is_match(re: &regex::Regex, text: &str) -> (b: bool)
    ensures
        b == regex_matches(regex_pattern(*re), text@),
{
    re.is_match(text)
}

/// How many `*` characters the pattern starts with.
pub open spec fn star_run(p: Seq<char>) -> int
    decreases p.len(),
{
    if p.len() > 0 && p[0] == '*' {
        1 + star_run(p.skip(1))
    } else {
        0
    }
}

pub proof fn lemma_star_run(p: Seq<char>)
    ensures
        0 <= star_run(p) <= p.len(),
        forall|j: int| 0 <= j < star_run(p) ==> p[j] == '*',
        star_run(p) < p.len() ==> p[star_run(p)] != '*',
    decreases p.len(),
{
    if p.len() > 0 && p[0] == '*' {
        lemma_star_run(p.skip(1));
        assert forall|j: int| 0 <= j < star_run(p) implies p[j] == '*' by {
            if j > 0 {
                assert(p.skip(1)[j - 1] == p[j]);
            }
        }
    }
}

/// The regex fragment standing for a run of `k` consecutive `*`: one or
/// more non-separator characters for a single `*`, one or more characters
/// of any kind for a longer run.
pub open spec fn star_matcher(k: int) -> Seq<char> {
    if k == 1 {
        seq!['[', '^', '/', ']', '+']
    } else if k >= 2 {
        seq!['.', '+']
    } else {
        Seq::empty()
    }
}

/// The regex fragment standing for one literal pattern character.
pub open spec fn glob_char_regex(c: char) -> Seq<char> {
    let u = c as u32;
    if u == 0x5C {
        seq!['/']
    } else if u == 0x3F {
        seq!['[', '^', '/', ']']
    } else if (0x30 <= u && u <= 0x39) || (0x41 <= u && u <= 0x5A) || (0x61 <= u && u <= 0x7A) || u
        == 0x3C || u == 0x3E {
        seq![c]
    } else {
        seq!['\\', c]
    }
}

/// The body of the regular expression a glob pattern translates to.
pub open spec fn glob_body(p: Seq<char>) -> Seq<char>
    decreases p.len(),
{
    if p.len() == 0 {
        Seq::empty()
    } else if p[0] == '*' {
        let k = star_run(p);
        proof {
            lemma_star_run(p);
        }
        star_matcher(k) + glob_body(p.skip(k))
    } else {
        glob_char_regex(p[0]) + glob_body(p.skip(1))
    }
}

/// The whole regular expression: the translated body anchored at both
/// ends.
pub open spec fn spec_glob_regex(p: Seq<char>) -> Seq<char> {
    seq!['^'] + glob_body(p) + seq!['$']
}

fn push_star_matcher(s: &mut String, k: usize)
    requires
        k >= 1,
    ensures
        final(s)@ == old(s)@ + star_matcher(k as int),
{
    if k == 1 {
        s.push('[');
        s.push('^');
        s.push('/');
        s.push(']');
        s.push('+');
        proof {
            assert(s@ =~= old(s)@ + star_matcher(k as int));
        }
    } else {
        s.push('.');
        s.push('+');
        proof {
            assert(s@ =~= old(s)@ + star_matcher(k as int));
        }
    }
}

fn push_char_regex(s: &mut String, c: char)
    ensures
        final(s)@ == old(s)@ + glob_char_regex(c),
{
    let u = c as u32;
    if u == 0x5C {
        s.push('/');
    } else if u == 0x3F {
        s.push('[');
        s.push('^');
        s.push('/');
        s.push(']');
    } else if (0x30 <= u && u <= 0x39) || (0x41 <= u && u <= 0x5A) || (0x61 <= u && u <= 0x7A) || u
        == 0x3C || u == 0x3E {
        s.push(c);
    } else {
        s.push('\\');
        s.push(c);
    }
    proof {
        assert(s@ =~= old(s)@ + glob_char_regex(c));
    }
}

/// Translate a glob pattern to its anchored regular expression, exactly as
/// `spec_glob_regex` states it.
pub fn glob_regex_string(pattern: &str) -> (r: String)
    ensures
        r@ == spec_glob_regex(pattern@),
{
    let ghost p = pattern@;
    let n = pattern.unicode_len();
    let mut s = String::new();
    s.push('^');
    let mut i: usize = 0;
    proof {
        assert(p.skip(0) =~= p);
        assert(s@ =~= seq!['^']);
    }
    while i < n
        invariant
            0 <= i <= n,
            n == p.len(),
            p == pattern@,
            s@ + glob_body(p.skip(i as int)) == seq!['^'] + glob_body(p),
        decreases n - i,
    {
        let c = pattern.get_char(i);
        if c == '*' {
            let ghost q = p.skip(i as int);
            let mut k: usize = 1;
            while i + k < n && pattern.get_char(i + k) == '*'
                invariant
                    0 <= i < n,
                    1 <= k <= n - i,
                    n == p.len(),
                    p == pattern@,
                    q == p.skip(i as int),
                    forall|j: int| 0 <= j < k ==> q[j] == '*',
                decreases n - i - k,
            {
                k = k + 1;
            }
            proof {
                lemma_star_run(q);
                assert(k < q.len() ==> q[k as int] != '*');
                assert(star_run(q) == k as int);
                assert(q.skip(k as int) =~= p.skip(i + k));
            }
            push_star_matcher(&mut s, k);
            i = i + k;
        } else {
            proof {
                assert(p.skip(i as int)[0] == c);
                assert(p.skip(i as int).skip(1) =~= p.skip(i + 1));
            }
            push_char_regex(&mut s, c);
            i = i + 1;
        }
    }
    proof {
        assert(p.skip(n as int) =~= Seq::<char>::empty());
    }
    s.push('$');
    proof {
        assert(s@ =~= seq!['^'] + glob_body(p) + seq!['$']);
    }
    s
}

/// Compile a glob pattern into a matcher: `Some` exactly when the regex
/// engine accepts the translated expression, `None` otherwise.
pub fn glob_pattern_to_regex(pattern: &str) -> (r: Option<regex::Regex>)
    ensures
        r is Some <==> regex_compiles(spec_glob_regex(pattern@)),
        r is Some ==> regex_pattern(r->Some_0) == spec_glob_regex(pattern@),
{
    let s = glob_regex_string(pattern);
    regex_new(s.as_str())
}

/// Whether at least one filter matches the candidate path.
pub fn matches_any(filters: &Vec<regex::Regex>, path: &str) -> (r: bool)
    ensures
        r <==> exists|i: int|
            0 <= i < filters@.len() && regex_matches(regex_pattern(#[trigger] filters@[i]), path@),
{
    let mut i: usize = 0;
    while i < filters.len()
        invariant
            0 <= i <= filters@.len(),
            forall|j: int|
                0 <= j < i ==> !regex_matches(regex_pattern(#[trigger] filters@[j]), path@),
        decreases filters@.len() - i,
    {
        if regex_is_match(&filters[i], path) {
            return true;
        }
        i = i + 1;
    }
    false
}

/// Whether a resource at the given logical path should be extracted: yes
/// when no filters are configured, else exactly when some filter matches.
pub fn should_extract(filters: &Vec<regex::Regex>, path: &str) -> (r: bool)
    ensures
        r <==> (filters@.len() == 0 || exists|i: int|
            0 <= i < filters@.len() && regex_matches(regex_pattern(#[trigger] filters@[i]), path@)),
{
    if filters.len() == 0 {
        true
    } else {
        matches_any(filters, path)
    }
}

} // verus!
