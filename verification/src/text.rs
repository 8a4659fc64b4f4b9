//! Verified character-level string operations used by the site parsers:
//! trimming, joining, substring search and substring removal.

use vstd::prelude::*;

verus! {

/// Whether a character has the Unicode whitespace property: the result
/// depends on the character alone.
pub uninterp spec fn char_is_whitespace(c: char) -> bool;

/// Relies on char::is_whitespace: whether the character has the Unicode
/// whitespace property, a function of the character alone.
#[verifier::external_body]
fn is_whitespace_char(c: char) -> (r: bool)
    ensures
        r == char_is_whitespace(c),
{
    c.is_whitespace()
}

/// `s` without its leading whitespace.
pub open spec fn trim_start_spec(s: Seq<char>) -> Seq<char>
    decreases s.len(),
{
    if s.len() > 0 && char_is_whitespace(s[0]) {
        trim_start_spec(s.drop_first())
    } else {
        s
    }
}

/// `s` without its trailing whitespace.
pub open spec fn trim_end_spec(s: Seq<char>) -> Seq<char>
    decreases s.len(),
{
    if s.len() > 0 && char_is_whitespace(s.last()) {
        trim_end_spec(s.drop_last())
    } else {
        s
    }
}

/// `s` without leading and trailing whitespace.
pub open spec fn spec_trim(s: Seq<char>) -> Seq<char> {
    trim_end_spec(trim_start_spec(s))
}

/// The string without leading and trailing whitespace.
pub fn trim(s: &str) -> (r: String)
    ensures
        r@ == spec_trim(s@),
{
    let len = s.unicode_len();
    proof {
        assert(s@.skip(0) =~= s@);
    }
    let mut a: usize = 0;
    while a < len && is_whitespace_char(s.get_char(a))
        invariant
            len == s@.len(),
            a <= len,
            trim_start_spec(s@) == trim_start_spec(s@.skip(a as int)),
        decreases len - a,
    {
        proof {
            assert(s@.skip(a as int)[0] == s@[a as int]);
            assert(s@.skip(a as int).drop_first() =~= s@.skip(a + 1));
        }
        a += 1;
    }
    let ghost t = s@.skip(a as int);
    proof {
        if a == len {
            assert(t =~= Seq::<char>::empty());
        } else {
            assert(t[0] == s@[a as int]);
        }
        assert(trim_start_spec(t) == t);
    }
    let mut b: usize = len;
    while b > a && is_whitespace_char(s.get_char(b - 1))
        invariant
            len == s@.len(),
            a <= b <= len,
            t == s@.skip(a as int),
            trim_end_spec(t) == trim_end_spec(s@.subrange(a as int, b as int)),
        decreases b,
    {
        proof {
            let sub = s@.subrange(a as int, b as int);
            assert(sub.last() == s@[b - 1]);
            assert(sub.drop_last() =~= s@.subrange(a as int, b - 1));
        }
        b -= 1;
    }
    proof {
        let sub = s@.subrange(a as int, b as int);
        if b == a {
            assert(sub =~= Seq::<char>::empty());
        } else {
            assert(sub.last() == s@[b - 1]);
        }
        assert(trim_end_spec(sub) == sub);
        assert(t =~= s@.subrange(a as int, len as int));
    }
    let piece = s.substring_char(a, b);
    String::from_str(piece)
}

/// The character sequences a vector of strings holds.
pub open spec fn views_of(v: Seq<String>) -> Seq<Seq<char>> {
    v.map_values(|s: String| s@)
}

/// The character sequences a vector of vectors of strings holds.
pub open spec fn views2_of(v: Seq<Vec<String>>) -> Seq<Seq<Seq<char>>> {
    v.map_values(|x: Vec<String>| views_of(x@))
}

/// The characters an optional string holds, if any.
pub open spec fn opt_view(o: Option<String>) -> Option<Seq<char>> {
    match o {
        Some(s) => Some(s@),
        None => None,
    }
}

/// The character sequences an optional vector of strings holds, if any.
pub open spec fn opt_views(o: Option<Vec<String>>) -> Option<Seq<Seq<char>>> {
    match o {
        Some(v) => Some(views_of(v@)),
        None => None,
    }
}

/// The pieces joined with `sep` between consecutive pieces.
pub open spec fn spec_join(parts: Seq<Seq<char>>, sep: Seq<char>) -> Seq<char>
    decreases parts.len(),
{
    if parts.len() == 0 {
        Seq::empty()
    } else if parts.len() == 1 {
        parts[0]
    } else {
        parts[0] + sep + spec_join(parts.drop_first(), sep)
    }
}

proof fn lemma_spec_join_push(parts: Seq<Seq<char>>, sep: Seq<char>, x: Seq<char>)
    ensures
        spec_join(parts.push(x), sep) == if parts.len() == 0 {
            x
        } else {
            spec_join(parts, sep) + sep + x
        },
    decreases parts.len(),
{
    let p2 = parts.push(x);
    if parts.len() == 0 {
        assert(p2.len() == 1);
        assert(p2[0] == x);
    } else {
        assert(p2[0] == parts[0]);
        assert(p2.drop_first() =~= parts.drop_first().push(x));
        lemma_spec_join_push(parts.drop_first(), sep, x);
        if parts.len() == 1 {
            assert(spec_join(p2, sep) == parts[0] + sep + x);
        } else {
            assert(spec_join(p2, sep) == parts[0] + sep + (spec_join(parts.drop_first(), sep)
                + sep + x));
            assert(parts[0] + sep + (spec_join(parts.drop_first(), sep) + sep + x) =~= (parts[0]
                + sep + spec_join(parts.drop_first(), sep)) + sep + x);
        }
    }
}

/// Join the strings with `sep` between consecutive ones.
pub fn join_with(parts: &Vec<String>, sep: &str) -> (r: String)
    ensures
        r@ == spec_join(views_of(parts@), sep@),
{
    let ghost dv = views_of(parts@);
    let mut out = String::new();
    let mut i: usize = 0;
    while i < parts.len()
        invariant
            dv == views_of(parts@),
            i <= parts.len(),
            out@ == spec_join(dv.take(i as int), sep@),
        decreases parts.len() - i,
    {
        if i > 0 {
            out.append(sep);
        }
        out.append(parts[i].as_str());
        proof {
            assert(dv[i as int] == parts@[i as int]@);
            assert(dv.take(i + 1) =~= dv.take(i as int).push(dv[i as int]));
            lemma_spec_join_push(dv.take(i as int), sep@, dv[i as int]);
        }
        i += 1;
    }
    proof {
        assert(dv.take(parts@.len() as int) =~= dv);
    }
    out
}

/// Whether the characters of `p` occur contiguously somewhere in `s`.
pub open spec fn has_sub(s: Seq<char>, p: Seq<char>) -> bool {
    exists|i: int| 0 <= i <= s.len() - p.len() && #[trigger] s.subrange(i, i + p.len()) == p
}

fn match_at(s: &str, i: usize, pat: &str) -> (b: bool)
    requires
        i + pat@.len() <= s@.len(),
    ensures
        b == (s@.subrange(i as int, i + pat@.len()) == pat@),
{
    let slen = s.unicode_len();
    let plen = pat.unicode_len();
    let mut k: usize = 0;
    while k < plen
        invariant
            slen == s@.len(),
            plen == pat@.len(),
            i + plen <= s@.len(),
            k <= plen,
            forall|t: int| 0 <= t < k ==> s@[i + t] == pat@[t],
        decreases plen - k,
    {
        if s.get_char(i + k) != pat.get_char(k) {
            proof {
                assert(s@.subrange(i as int, i + pat@.len())[k as int] == s@[i + k]);
            }
            return false;
        }
        k += 1;
    }
    proof {
        assert(s@.subrange(i as int, i + pat@.len()) =~= pat@);
    }
    true
}

/// Whether `pat` occurs contiguously in `s`.
pub fn contains_sub(s: &str, pat: &str) -> (b: bool)
    ensures
        b == has_sub(s@, pat@),
{
    let slen = s.unicode_len();
    let plen = pat.unicode_len();
    if plen > slen {
        return false;
    }
    if plen == 0 {
        proof {
            assert(s@.subrange(0, 0 + pat@.len() as int) =~= pat@);
            assert(has_sub(s@, pat@));
        }
        return true;
    }
    let mut i: usize = 0;
    while i <= slen - plen
        invariant
            slen == s@.len(),
            plen == pat@.len(),
            1 <= plen <= slen,
            i <= slen - plen + 1,
            forall|t: int| 0 <= t < i ==> #[trigger] s@.subrange(t, t + pat@.len()) != pat@,
        decreases slen - i,
    {
        if match_at(s, i, pat) {
            return true;
        }
        i += 1;
    }
    false
}

/// `s` with every non-overlapping occurrence of `p`, found left to right,
/// removed.  An empty `p` removes nothing.
pub open spec fn spec_remove_sub(s: Seq<char>, p: Seq<char>) -> Seq<char>
    decreases s.len(),
{
    if p.len() == 0 || s.len() < p.len() {
        s
    } else if s.subrange(0, p.len() as int) == p {
        spec_remove_sub(s.skip(p.len() as int), p)
    } else {
        seq![s[0]] + spec_remove_sub(s.drop_first(), p)
    }
}

/// Remove every non-overlapping occurrence of `pat` from `s`, scanning
/// left to right.
pub fn remove_sub_all(s: &str, pat: &str) -> (r: String)
    ensures
        r@ == spec_remove_sub(s@, pat@),
{
    let slen = s.unicode_len();
    let plen = pat.unicode_len();
    if plen == 0 {
        return String::from_str(s);
    }
    let mut out = String::new();
    proof {
        assert(s@.skip(0) =~= s@);
        assert(Seq::<char>::empty() + spec_remove_sub(s@, pat@) =~= spec_remove_sub(s@, pat@));
    }
    let mut i: usize = 0;
    while i < slen
        invariant
            slen == s@.len(),
            plen == pat@.len(),
            plen >= 1,
            i <= slen,
            spec_remove_sub(s@, pat@) == out@ + spec_remove_sub(s@.skip(i as int), pat@),
        decreases slen - i,
    {
        let ghost rest = s@.skip(i as int);
        if plen <= slen - i && match_at(s, i, pat) {
            proof {
                assert(rest.subrange(0, plen as int) =~= s@.subrange(i as int, i + plen));
                assert(rest.skip(plen as int) =~= s@.skip(i + plen));
                assert(spec_remove_sub(rest, pat@) == spec_remove_sub(s@.skip(i + plen), pat@));
            }
            i += plen;
        } else {
            let piece = s.substring_char(i, i + 1);
            out.append(piece);
            proof {
                assert(rest[0] == s@[i as int]);
                assert(rest.drop_first() =~= s@.skip(i + 1));
                if rest.len() >= plen {
                    assert(rest.subrange(0, plen as int) =~= s@.subrange(i as int, i + plen));
                }
                assert(spec_remove_sub(rest, pat@) == seq![s@[i as int]] + spec_remove_sub(
                    s@.skip(i + 1),
                    pat@,
                ));
                assert(piece@ =~= seq![s@[i as int]]);
                assert(out@ + spec_remove_sub(s@.skip(i + 1), pat@) =~= spec_remove_sub(s@, pat@));
            }
            i += 1;
        }
    }
    proof {
        assert(s@.skip(slen as int) =~= Seq::<char>::empty());
        assert(out@ + spec_remove_sub(s@.skip(slen as int), pat@) =~= out@);
    }
    out
}

} // verus!
