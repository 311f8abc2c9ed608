use vstd::prelude::*;
use crate::text::{all_digits, chars_of, digits_value, is_digit};
use crate::session::Role;

verus! {

/// `char::is_whitespace`: the Unicode `White_Space` property.
pub open spec fn is_space(c: char) -> bool {
    let u = c as u32;
    (0x9 <= u && u <= 0xd) || u == 0x20 || u == 0x85 || u == 0xa0 || u == 0x1680 || (0x2000 <= u
        && u <= 0x200a) || u == 0x2028 || u == 0x2029 || u == 0x202f || u == 0x205f || u == 0x3000
}

/// `s` holds `pat` starting at index `i`.
pub open spec fn occurs_at(s: Seq<char>, pat: Seq<char>, i: int) -> bool {
    0 <= i && i + pat.len() <= s.len() && s.subrange(i, i + pat.len()) == pat
}

pub open spec fn contains(s: Seq<char>, pat: Seq<char>) -> bool {
    exists|i: int| occurs_at(s, pat, i)
}

/// What follows the last occurrence of `pat` in `s`; all of `s` when it has none.
pub open spec fn tail_after(s: Seq<char>, pat: Seq<char>) -> Seq<char>
    decreases s.len(),
{
    if s.len() < pat.len() || s.len() == 0 {
        s
    } else if s.subrange(s.len() - pat.len(), s.len() as int) == pat {
        Seq::empty()
    } else {
        tail_after(s.drop_last(), pat).push(s.last())
    }
}

pub open spec fn trim_start(s: Seq<char>) -> Seq<char>
    decreases s.len(),
{
    if s.len() > 0 && is_space(s[0]) {
        trim_start(s.drop_first())
    } else {
        s
    }
}

pub open spec fn trim_end(s: Seq<char>) -> Seq<char>
    decreases s.len(),
{
    if s.len() > 0 && is_space(s.last()) {
        trim_end(s.drop_last())
    } else {
        s
    }
}

/// `s` without leading and trailing white space.
pub open spec fn trim(s: Seq<char>) -> Seq<char> {
    trim_end(trim_start(s))
}

/// The characters of `s` up to its first white space.
pub open spec fn word(s: Seq<char>) -> Seq<char>
    decreases s.len(),
{
    if s.len() == 0 || is_space(s[0]) {
        Seq::empty()
    } else {
        seq![s[0]] + word(s.drop_first())
    }
}

/// `s` read as a `u16` the way `str::parse::<u16>` reads it: an optional `+`,
/// then one or more decimal digits whose value fits.
pub open spec fn parse_port(s: Seq<char>) -> Option<u16> {
    let d = if s.len() > 0 && s[0] == '+' {
        s.drop_first()
    } else {
        s
    };
    if d.len() > 0 && all_digits(d) && digits_value(d) <= 0xffff {
        Some(digits_value(d) as u16)
    } else {
        None
    }
}

pub open spec fn listening_marker() -> Seq<char> {
    seq!['l', 'i', 's', 't', 'e', 'n', 'i', 'n', 'g', ' ', 'a', 't']
}

pub open spec fn remote_port_marker() -> Seq<char> {
    seq!['r', 'e', 'm', 'o', 't', 'e', '_', 'p', 'o', 'r', 't', '=']
}

/// The port of a line that holds `listening at`: the text after its last
/// `:`, trimmed.
pub open spec fn listening_port(line: Seq<char>) -> Option<u16> {
    if contains(line, listening_marker()) {
        parse_port(trim(tail_after(line, seq![':'])))
    } else {
        None
    }
}

/// The port of a line that holds `remote_port=`: the characters right after
/// the last such marker, up to the next white space.
pub open spec fn remote_port(line: Seq<char>) -> Option<u16> {
    if contains(line, remote_port_marker()) {
        parse_port(word(tail_after(line, remote_port_marker())))
    } else {
        None
    }
}

/// The port that a line of a session's standard output announces.
///
/// Only client output is read. A line announces a port when either of its
/// patterns parses; the `listening at` one is tried first.
pub open spec fn announced_port(role: Role, line: Seq<char>) -> Option<u16> {
    match role {
        Role::Server => None,
        Role::Client => match listening_port(line) {
            Some(p) => Some(p),
            None => remote_port(line),
        },
    }
}

pub fn is_space_char(c: char) -> (r: bool)
    ensures
        r == is_space(c),
{
    let u = c as u32;
    (0x9 <= u && u <= 0xd) || u == 0x20 || u == 0x85 || u == 0xa0 || u == 0x1680 || (0x2000 <= u
        && u <= 0x200a) || u == 0x2028 || u == 0x2029 || u == 0x202f || u == 0x205f || u == 0x3000
}

fn occurs_at_exec(s: &Vec<char>, pat: &Vec<char>, i: usize) -> (r: bool)
    requires
        pat@.len() > 0,
    ensures
        r == occurs_at(s@, pat@, i as int),
{
    if i > s.len() || pat.len() > s.len() - i {
        return false;
    }
    let mut k: usize = 0;
    while k < pat.len()
        invariant
            i + pat@.len() <= s@.len(),
            k <= pat@.len(),
            forall|j: int| 0 <= j < k ==> s@[i + j] == pat@[j],
        decreases pat@.len() - k,
    {
        assert(i + k < s.len());
        if s[i + k] != pat[k] {
            proof {
                assert(s@.subrange(i as int, i + pat@.len())[k as int] != pat@[k as int]);
            }
            return false;
        }
        k = k + 1;
    }
    assert(s@.subrange(i as int, i + pat@.len()) =~= pat@);
    true
}

fn contains_exec(s: &Vec<char>, pat: &Vec<char>) -> (r: bool)
    requires
        pat@.len() > 0,
    ensures
        r == contains(s@, pat@),
{
    if pat.len() > s.len() {
        return false;
    }
    let mut i: usize = 0;
    while i <= s.len() - pat.len()
        invariant
            pat@.len() > 0,
            pat@.len() <= s@.len(),
            i <= s@.len() - pat@.len() + 1,
            forall|j: int| 0 <= j < i ==> !occurs_at(s@, pat@, j),
        decreases s@.len() - pat@.len() + 1 - i,
    {
        if occurs_at_exec(s, pat, i) {
            return true;
        }
        i = i + 1;
    }
    false
}

proof fn lemma_tail_after_step(s: Seq<char>, pat: Seq<char>, e: int)
    requires
        0 < pat.len() <= e <= s.len(),
        s.subrange(e - pat.len(), e) != pat,
    ensures
        tail_after(s.subrange(0, e), pat) == tail_after(s.subrange(0, e - 1), pat).push(s[e - 1]),
{
    let p = s.subrange(0, e);
    assert(p.subrange(p.len() - pat.len(), p.len() as int) =~= s.subrange(e - pat.len(), e));
    assert(p.drop_last() =~= s.subrange(0, e - 1));
}

/// Index in `s` where the text after the last occurrence of `pat` begins.
fn tail_after_start(s: &Vec<char>, pat: &Vec<char>) -> (r: usize)
    requires
        pat@.len() > 0,
    ensures
        r <= s@.len(),
        tail_after(s@, pat@) == s@.subrange(r as int, s@.len() as int),
{
    let mut e: usize = s.len();
    assert(s@.subrange(0, e as int) =~= s@);
    assert(s@.subrange(e as int, e as int) =~= Seq::<char>::empty());
    while e >= pat.len()
        invariant
            e <= s@.len(),
            pat@.len() > 0,
            tail_after(s@, pat@) == tail_after(s@.subrange(0, e as int), pat@) + s@.subrange(
                e as int,
                s@.len() as int,
            ),
        decreases e,
    {
        if occurs_at_exec(s, pat, e - pat.len()) {
            proof {
                let p = s@.subrange(0, e as int);
                assert(p.subrange(p.len() - pat@.len(), p.len() as int) =~= pat@);
                assert(tail_after(p, pat@) == Seq::<char>::empty());
                assert(tail_after(s@, pat@) =~= s@.subrange(e as int, s@.len() as int));
            }
            return e;
        }
        proof {
            lemma_tail_after_step(s@, pat@, e as int);
            assert(tail_after(s@.subrange(0, e - 1), pat@).push(s@[e - 1]) + s@.subrange(
                e as int,
                s@.len() as int,
            ) =~= tail_after(s@.subrange(0, e - 1), pat@) + s@.subrange(e - 1, s@.len() as int));
        }
        e = e - 1;
    }
    proof {
        assert(s@.subrange(0, e as int) + s@.subrange(e as int, s@.len() as int) =~= s@);
    }
    0
}

/// Leading white space of `s[lo..hi]`, skipped.
fn skip_space(s: &Vec<char>, lo: usize, hi: usize) -> (r: usize)
    requires
        lo <= hi <= s@.len(),
    ensures
        lo <= r <= hi,
        trim_start(s@.subrange(lo as int, hi as int)) == s@.subrange(r as int, hi as int),
{
    let mut i: usize = lo;
    while i < hi && is_space_char(s[i])
        invariant
            lo <= i <= hi <= s@.len(),
            trim_start(s@.subrange(lo as int, hi as int)) == trim_start(
                s@.subrange(i as int, hi as int),
            ),
        decreases hi - i,
    {
        proof {
            assert(s@.subrange(i as int, hi as int).drop_first() =~= s@.subrange(
                i + 1,
                hi as int,
            ));
        }
        i = i + 1;
    }
    i
}

/// Trailing white space of `s[lo..hi]`, cut off.
fn cut_space(s: &Vec<char>, lo: usize, hi: usize) -> (r: usize)
    requires
        lo <= hi <= s@.len(),
    ensures
        lo <= r <= hi,
        trim_end(s@.subrange(lo as int, hi as int)) == s@.subrange(lo as int, r as int),
{
    let mut j: usize = hi;
    while j > lo && is_space_char(s[j - 1])
        invariant
            lo <= j <= hi <= s@.len(),
            trim_end(s@.subrange(lo as int, hi as int)) == trim_end(
                s@.subrange(lo as int, j as int),
            ),
        decreases j,
    {
        proof {
            assert(s@.subrange(lo as int, j as int).drop_last() =~= s@.subrange(
                lo as int,
                j - 1,
            ));
        }
        j = j - 1;
    }
    j
}

/// End of the word that begins at `lo`.
fn word_end(s: &Vec<char>, lo: usize) -> (r: usize)
    requires
        lo <= s@.len(),
    ensures
        lo <= r <= s@.len(),
        word(s@.subrange(lo as int, s@.len() as int)) == s@.subrange(lo as int, r as int),
{
    let mut i: usize = lo;
    while i < s.len() && !is_space_char(s[i])
        invariant
            lo <= i <= s@.len(),
            forall|j: int| lo <= j < i ==> !is_space(s@[j]),
        decreases s@.len() - i,
    {
        i = i + 1;
    }
    proof {
        lemma_word_run(s@, lo as int, i as int);
    }
    i
}

proof fn lemma_word_run(s: Seq<char>, lo: int, i: int)
    requires
        0 <= lo <= i <= s.len(),
        forall|j: int| lo <= j < i ==> !is_space(s[j]),
        i == s.len() || is_space(s[i]),
    ensures
        word(s.subrange(lo, s.len() as int)) == s.subrange(lo, i),
    decreases i - lo,
{
    let t = s.subrange(lo, s.len() as int);
    if lo < i {
        lemma_word_run(s, lo + 1, i);
        assert(t.drop_first() =~= s.subrange(lo + 1, s.len() as int));
        assert(seq![s[lo]] + s.subrange(lo + 1, i) =~= s.subrange(lo, i));
    } else {
        assert(s.subrange(lo, i) =~= Seq::<char>::empty());
    }
}

proof fn lemma_digits_grow(s: Seq<char>, i: int, j: int)
    requires
        0 <= i <= j <= s.len(),
        all_digits(s.subrange(0, j)),
    ensures
        digits_value(s.subrange(0, i)) <= digits_value(s.subrange(0, j)),
    decreases j - i,
{
    if i < j {
        lemma_digits_grow(s, i, j - 1);
        let p = s.subrange(0, j);
        assert(p.drop_last() =~= s.subrange(0, j - 1));
        assert(is_digit(p[j - 1]));
        assert(digits_value(s.subrange(0, j - 1)) >= 0) by {
            lemma_digits_nonneg(s.subrange(0, j - 1));
        }
    }
}

proof fn lemma_digits_nonneg(s: Seq<char>)
    requires
        all_digits(s),
    ensures
        digits_value(s) >= 0,
    decreases s.len(),
{
    if s.len() > 0 {
        assert(all_digits(s.drop_last())) by {
            assert forall|i: int| 0 <= i < s.drop_last().len() implies is_digit(
                #[trigger] s.drop_last()[i],
            ) by {
                assert(s.drop_last()[i] == s[i]);
            }
        }
        lemma_digits_nonneg(s.drop_last());
        assert(is_digit(s[s.len() - 1]));
    }
}

/// `s[lo..hi]` read as a port number, as `parse_port` says.
pub fn parse_port_at(s: &Vec<char>, lo: usize, hi: usize) -> (r: Option<u16>)
    requires
        lo <= hi <= s@.len(),
    ensures
        r == parse_port(s@.subrange(lo as int, hi as int)),
{
    let ghost whole = s@.subrange(lo as int, hi as int);
    let start: usize = if lo < hi && s[lo] == '+' {
        lo + 1
    } else {
        lo
    };
    let ghost d = s@.subrange(start as int, hi as int);
    proof {
        if lo < hi && s@[lo as int] == '+' {
            assert(whole.drop_first() =~= d);
        } else {
            assert(whole =~= d);
        }
    }
    if start == hi {
        return None;
    }
    let mut acc: u32 = 0;
    let mut i: usize = start;
    while i < hi
        invariant
            start <= i <= hi <= s@.len(),
            d == s@.subrange(start as int, hi as int),
            whole == s@.subrange(lo as int, hi as int),
            d.len() > 0,
            parse_port(whole) == (if all_digits(d) && digits_value(d) <= 0xffff {
                Some(digits_value(d) as u16)
            } else {
                None
            }),
            all_digits(s@.subrange(start as int, i as int)),
            acc as int == digits_value(s@.subrange(start as int, i as int)),
            acc <= 0xffff,
        decreases hi - i,
    {
        let c = s[i];
        if !('0' <= c && c <= '9') {
            proof {
                assert(d[i - start] == c);
                assert(!is_digit(d[i - start]));
                assert(!all_digits(d));
            }
            return None;
        }
        let ghost p = s@.subrange(start as int, i + 1);
        proof {
            assert(p.drop_last() =~= s@.subrange(start as int, i as int));
            assert(all_digits(p)) by {
                assert forall|j: int| 0 <= j < p.len() implies is_digit(#[trigger] p[j]) by {
                    if j < p.len() - 1 {
                        assert(p[j] == s@.subrange(start as int, i as int)[j]);
                    }
                }
            }
        }
        let next: u32 = acc * 10 + (c as u32 - 48);
        assert(next as int == digits_value(p));
        if next > 0xffff {
            proof {
                let n = hi - start;
                assert(d.subrange(0, i + 1 - start) =~= p);
                if all_digits(d) {
                    assert(d.subrange(0, n as int) =~= d);
                    lemma_digits_grow(d, i + 1 - start, n as int);
                    assert(digits_value(d) > 0xffff);
                }
                assert(parse_port(whole) is None);
            }
            return None;
        }
        acc = next;
        i = i + 1;
    }
    proof {
        assert(s@.subrange(start as int, i as int) =~= d);
    }
    Some(acc as u16)
}

/// The port that a line of a session's standard output announces, if any.
pub fn classify(role: Role, line: &str) -> (r: Option<u16>)
    ensures
        r == announced_port(role, line@),
{
    match role {
        Role::Server => None,
        Role::Client => {
            let s = chars_of(line);
            let listening: Vec<char> = vec!['l', 'i', 's', 't', 'e', 'n', 'i', 'n', 'g', ' ', 'a', 't'];
            let remote: Vec<char> = vec!['r', 'e', 'm', 'o', 't', 'e', '_', 'p', 'o', 'r', 't', '='];
            assert(listening@ =~= listening_marker());
            assert(remote@ =~= remote_port_marker());
            let heard = if contains_exec(&s, &listening) {
                let colon: Vec<char> = vec![':'];
                assert(colon@ =~= seq![':']);
                let lo = tail_after_start(&s, &colon);
                let a = skip_space(&s, lo, s.len());
                let b = cut_space(&s, a, s.len());
                proof {
                    assert(s@.subrange(lo as int, s@.len() as int).subrange(0, 0) =~= Seq::<char>::empty());
                }
                parse_port_at(&s, a, b)
            } else {
                None
            };
            if heard.is_some() {
                return heard;
            }
            if contains_exec(&s, &remote) {
                let lo = tail_after_start(&s, &remote);
                let b = word_end(&s, lo);
                parse_port_at(&s, lo, b)
            } else {
                None
            }
        },
    }
}

} // verus!
