use vstd::prelude::*;
use vstd::string::StringExecFns;

verus! {

/// The error type carried by `NCDError::IOError`. The type is declared so
/// that values of it can be stored and passed through; nothing is assumed
/// about what is inside it.
#[verifier::external_type_specification]
#[verifier::external_body]
pub struct ExIoError(std::io::Error);

/// Everything that can go wrong while building or reading an NCD file.
///
/// `HeapFull` and `TableFull` are internal signals of one build attempt:
/// the build driver reacts to them by growing the page count, and they
/// never escape it.
#[derive(Debug)]
pub enum NCDError {
    IOError(std::io::Error),
    CorruptNCDFile(String),
    BadUTF8Error,
    UnsupportedVersion(String),
    BadConfiguration(String),
    HeapFull,
    TableFull,
    WrongStamp,
}

/// The character for one decimal digit.
pub open spec fn digit_char(d: int) -> char {
    if d == 0 {
        '0'
    } else if d == 1 {
        '1'
    } else if d == 2 {
        '2'
    } else if d == 3 {
        '3'
    } else if d == 4 {
        '4'
    } else if d == 5 {
        '5'
    } else if d == 6 {
        '6'
    } else if d == 7 {
        '7'
    } else if d == 8 {
        '8'
    } else {
        '9'
    }
}

/// The decimal digits of a nonnegative number, most significant first.
pub open spec fn dec_digits(v: int) -> Seq<char>
    decreases v,
{
    if v < 10 {
        seq![digit_char(v)]
    } else {
        dec_digits(v / 10) + seq![digit_char(v % 10)]
    }
}

/// The one-character string for a decimal digit.
fn digit_str(d: u64) -> (r: &'static str)
    requires
        d < 10,
    ensures
        r@ == seq![digit_char(d as int)],
{
    proof {
        reveal_strlit("0");
        reveal_strlit("1");
        reveal_strlit("2");
        reveal_strlit("3");
        reveal_strlit("4");
        reveal_strlit("5");
        reveal_strlit("6");
        reveal_strlit("7");
        reveal_strlit("8");
        reveal_strlit("9");
    }
    match d {
        0 => "0",
        1 => "1",
        2 => "2",
        3 => "3",
        4 => "4",
        5 => "5",
        6 => "6",
        7 => "7",
        8 => "8",
        _ => "9",
    }
}

/// Append the decimal digits of `value` to `s`.
pub fn push_decimal(s: &mut String, value: u64)
    ensures
        final(s)@ == old(s)@ + dec_digits(value as int),
    decreases value,
{
    if value < 10 {
        s.append(digit_str(value));
        proof {
            assert(s@ =~= old(s)@ + dec_digits(value as int));
        }
    } else {
        proof {
            assert(0 < value / 10 < value) by (nonlinear_arith)
                requires
                    value >= 10,
            {
            }
        }
        push_decimal(s, value / 10);
        s.append(digit_str(value % 10));
        proof {
            assert(s@ =~= old(s)@ + dec_digits(value as int));
        }
    }
}

/// The decimal representation of `value`.
pub fn u64_to_string(value: u64) -> (s: String)
    ensures
        s@ == dec_digits(value as int),
{
    let mut s = String::new();
    push_decimal(&mut s, value);
    proof {
        assert(s@ =~= dec_digits(value as int));
    }
    s
}

/// Whether a character has the Unicode white-space property; a property
/// of the character alone.
pub uninterp spec fn is_whitespace_of(c: char) -> bool;

/// Relies on `char::is_whitespace`: the Unicode white-space property of
/// the character.
#[verifier::external_body]
pub(crate) fn char_is_whitespace(c: char) -> (r: bool)
    ensures
        r == is_whitespace_of(c),
{
    c.is_whitespace()
}

/// Relies on `char`'s `ToString`: the string holding exactly the one
/// character.
#[verifier::external_body]
fn char_to_string(c: char) -> (r: String)
    ensures
        r@ == seq![c],
{
    c.to_string()
}

/// Relies on `str::chars`: the characters of the string in order, which
/// are the string's view.
#[verifier::external_body]
pub(crate) fn str_chars(s: &str) -> (r: Vec<char>)
    ensures
        r@ == s@,
{
    s.chars().collect()
}

/// The string holding the characters `chars[start..end]`.
pub(crate) fn chars_to_string(chars: &Vec<char>, start: usize, end: usize) -> (r: String)
    requires
        start <= end <= chars@.len(),
    ensures
        r@ == chars@.subrange(start as int, end as int),
{
    let mut s = String::new();
    let mut i: usize = start;
    while i < end
        invariant
            start <= i <= end <= chars@.len(),
            s@ == chars@.subrange(start as int, i as int),
        decreases end - i,
    {
        let c = char_to_string(chars[i]);
        s.append(c.as_str());
        proof {
            assert(s@ =~= chars@.subrange(start as int, i + 1));
        }
        i = i + 1;
    }
    s
}

/// Whether `pat` occurs in `s` at position `i`.
pub open spec fn match_at(s: Seq<char>, pat: Seq<char>, i: int) -> bool {
    0 <= i && i + pat.len() <= s.len() && s.subrange(i, i + pat.len()) == pat
}

/// The first position at or after `from` where `pat` occurs in `s`,
/// or -1.
pub open spec fn find_match(s: Seq<char>, pat: Seq<char>, from: int) -> int
    recommends
        0 <= from,
    decreases s.len() - from,
{
    if from < 0 || from + pat.len() > s.len() || pat.len() == 0 {
        -1
    } else if match_at(s, pat, from) {
        from
    } else {
        find_match(s, pat, from + 1)
    }
}

/// The position of the `n`-th occurrence of `pat` in `s` at or after
/// `from`, counting non-overlapping occurrences, or -1.
pub open spec fn nth_match(s: Seq<char>, pat: Seq<char>, from: int, n: int) -> int
    recommends
        n >= 1,
        pat.len() >= 1,
    decreases n,
{
    let i = find_match(s, pat, from);
    if i < 0 {
        -1
    } else if n <= 1 {
        i
    } else {
        nth_match(s, pat, i + pat.len(), n - 1)
    }
}

/// Whether the characters of `pat` stand at position `i` of `chars`.
fn match_at_exec(chars: &Vec<char>, pat: &Vec<char>, i: usize) -> (r: bool)
    requires
        i + pat@.len() <= chars@.len(),
    ensures
        r == match_at(chars@, pat@, i as int),
{
    let plen: usize = pat.len();
    let cl: usize = chars.len();
    let mut j: usize = 0;
    while j < plen
        invariant
            j <= plen,
            plen == pat@.len(),
            cl == chars@.len(),
            i + plen <= cl,
            forall|m: int| 0 <= m < j ==> chars@[i + m] == pat@[m],
        decreases plen - j,
    {
        if chars[i + j] != pat[j] {
            proof {
                assert(chars@.subrange(i as int, i + plen)[j as int] != pat@[j as int]);
            }
            return false;
        }
        j = j + 1;
    }
    proof {
        assert(chars@.subrange(i as int, i + plen) =~= pat@);
    }
    true
}

/// The position of the first occurrence of `pat` in `chars` at or after
/// `from`, if there is one.
pub fn find_match_from(chars: &Vec<char>, pat: &Vec<char>, from: usize) -> (r: Option<usize>)
    requires
        pat@.len() >= 1,
    ensures
        r is Some ==> from <= r->0 && r->0 + pat@.len() <= chars@.len() && find_match(
            chars@,
            pat@,
            from as int,
        ) == r->0 && match_at(chars@, pat@, r->0 as int),
        r is None ==> find_match(chars@, pat@, from as int) == -1,
{
    let clen: usize = chars.len();
    let plen: usize = pat.len();
    if plen > clen || from > clen - plen {
        proof {
            lemma_find_match_none(chars@, pat@, from as int, from as int);
        }
        return None;
    }
    let limit: usize = clen - plen;
    let mut i: usize = from;
    let mut found: bool = false;
    while !found && i <= limit
        invariant
            from <= i,
            limit == clen - plen,
            plen == pat@.len(),
            plen >= 1,
            plen <= clen,
            clen == chars@.len(),
            found ==> i <= limit && match_at(chars@, pat@, i as int),
            forall|m: int| from <= m < i ==> !match_at(chars@, pat@, m),
        decreases (if found { 0int } else { 1int }), clen - i,
    {
        if match_at_exec(chars, pat, i) {
            found = true;
        } else {
            i = i + 1;
        }
    }
    if found {
        proof {
            lemma_find_match_here(chars@, pat@, from as int, i as int);
        }
        Some(i)
    } else {
        proof {
            lemma_find_match_none(chars@, pat@, from as int, i as int);
        }
        None
    }
}

/// Split `line` at the `index`-th occurrence of `pattern` (occurrences
/// counted without overlap): the key is what stands before it, the value
/// what follows it. With fewer occurrences, the whole line is the key and
/// the value is empty.
pub fn extract_pattern(pattern: &str, index: usize, line: &str) -> (r: (String, String))
    requires
        index >= 1,
        pattern@.len() >= 1,
    ensures
        ({
            let m = nth_match(line@, pattern@, 0, index as int);
            &&& m >= 0 ==> r.0@ == line@.subrange(0, m) && r.1@ == line@.subrange(
                m + pattern@.len(),
                line@.len() as int,
            )
            &&& m < 0 ==> r.0@ == line@ && r.1@ == Seq::<char>::empty()
        }),
{
    let chars: Vec<char> = str_chars(line);
    let pat: Vec<char> = str_chars(pattern);
    let clen: usize = chars.len();
    let plen: usize = pat.len();
    if plen > clen {
        proof {
            assert(nth_match(line@, pattern@, 0, index as int) == -1);
            assert(chars@.subrange(0, clen as int) =~= line@);
        }
        return (chars_to_string(&chars, 0, clen), String::new());
    }
    let limit: usize = clen - plen;
    let mut from: usize = 0;
    let mut n: usize = index;
    loop
        invariant
            from <= clen,
            n >= 1,
            plen == pattern@.len(),
            plen >= 1,
            plen <= clen,
            limit == clen - plen,
            clen == chars@.len(),
            chars@ == line@,
            pat@ == pattern@,
            nth_match(line@, pattern@, from as int, n as int) == nth_match(
                line@,
                pattern@,
                0,
                index as int,
            ),
        decreases clen - from, n,
    {
        let mut i: usize = from;
        let mut found: bool = false;
        while !found && i <= limit
            invariant
                from <= i,
                limit == clen - plen,
                plen == pat@.len(),
                plen >= 1,
                plen <= clen,
                clen == chars@.len(),
                pat@ == pattern@,
                chars@ == line@,
                found ==> i <= limit && match_at(line@, pattern@, i as int),
                forall|m: int| from <= m < i ==> !match_at(line@, pattern@, m),
            decreases (if found { 0int } else { 1int }), clen - i,
        {
            if match_at_exec(&chars, &pat, i) {
                found = true;
            } else {
                i = i + 1;
            }
        }
        proof {
            if found {
                lemma_find_match_here(line@, pattern@, from as int, i as int);
            } else {
                lemma_find_match_none(line@, pattern@, from as int, i as int);
            }
        }
        if !found {
            proof {
                assert(chars@.subrange(0, clen as int) =~= line@);
            }
            return (chars_to_string(&chars, 0, clen), String::new());
        }
        if n == 1 {
            return (
                chars_to_string(&chars, 0, i),
                chars_to_string(&chars, i + plen, clen),
            );
        }
        n = n - 1;
        from = i + plen;
    }
}

/// When no position in `[from, i)` matches and no whole occurrence fits
/// at or after `i`, there is no occurrence at or after `from`.
proof fn lemma_find_match_none(s: Seq<char>, pat: Seq<char>, from: int, i: int)
    requires
        0 <= from <= i,
        pat.len() >= 1,
        forall|m: int| from <= m < i ==> !match_at(s, pat, m),
        i + pat.len() > s.len(),
    ensures
        find_match(s, pat, from) == -1,
    decreases i - from,
{
    if from + pat.len() <= s.len() {
        assert(!match_at(s, pat, from));
        lemma_find_match_none(s, pat, from + 1, if i < from + 1 {
            from + 1
        } else {
            i
        });
    }
}

/// When position `i` matches and no earlier position at or after `from`
/// does, the first occurrence at or after `from` is at `i`.
proof fn lemma_find_match_here(s: Seq<char>, pat: Seq<char>, from: int, i: int)
    requires
        0 <= from <= i,
        pat.len() >= 1,
        forall|m: int| from <= m < i ==> !match_at(s, pat, m),
        match_at(s, pat, i),
    ensures
        find_match(s, pat, from) == i,
    decreases i - from,
{
    if from < i {
        assert(!match_at(s, pat, from));
        lemma_find_match_here(s, pat, from + 1, i);
    }
}

/// The final (key, value) of the whitespace splitter run from position
/// `i` in state (`sep`: inside a whitespace run; `cnt`: runs seen;
/// `to_v`: the split already happened) with accumulators `k` and `v`.
pub open spec fn split_whitespace_from(
    s: Seq<char>,
    index: int,
    i: int,
    sep: bool,
    cnt: int,
    to_v: bool,
    k: Seq<char>,
    v: Seq<char>,
) -> (Seq<char>, Seq<char>)
    decreases s.len() - i,
{
    if i < 0 || i >= s.len() {
        (k, v)
    } else {
        let c = s[i];
        if is_whitespace_of(c) {
            let cnt2 = if !sep {
                cnt + 1
            } else {
                cnt
            };
            if cnt2 == index {
                split_whitespace_from(s, index, i + 1, true, cnt2, true, k, v)
            } else if to_v {
                split_whitespace_from(s, index, i + 1, true, cnt2, true, k, v + seq![c])
            } else {
                split_whitespace_from(s, index, i + 1, true, cnt2, false, k + seq![c], v)
            }
        } else {
            if to_v {
                split_whitespace_from(s, index, i + 1, false, cnt, true, k, v + seq![c])
            } else {
                split_whitespace_from(s, index, i + 1, false, cnt, false, k + seq![c], v)
            }
        }
    }
}

/// Split `line` at its `index`-th whitespace run: the key is what stands
/// before that run, the value everything after it (later whitespace
/// kept). With fewer runs, the key is the whole line and the value is
/// empty.
pub fn extract_whitespace(index: usize, line: &str) -> (r: (String, String))
    ensures
        (r.0@, r.1@) == split_whitespace_from(
            line@,
            index as int,
            0,
            false,
            0,
            false,
            Seq::<char>::empty(),
            Seq::<char>::empty(),
        ),
{
    let chars: Vec<char> = str_chars(line);
    let clen: usize = chars.len();
    let mut k = String::new();
    let mut v = String::new();
    let mut sep: bool = false;
    let mut cnt: usize = 0;
    let mut to_v: bool = false;
    let mut i: usize = 0;
    while i < clen
        invariant
            i <= clen,
            clen == chars@.len(),
            chars@ == line@,
            cnt <= i,
            split_whitespace_from(
                line@,
                index as int,
                i as int,
                sep,
                cnt as int,
                to_v,
                k@,
                v@,
            ) == split_whitespace_from(
                line@,
                index as int,
                0,
                false,
                0,
                false,
                Seq::<char>::empty(),
                Seq::<char>::empty(),
            ),
        decreases clen - i,
    {
        let c: char = chars[i];
        if char_is_whitespace(c) {
            if !sep {
                cnt = cnt + 1;
                sep = true;
            }
            if cnt == index {
                to_v = true;
            } else if to_v {
                let cs = char_to_string(c);
                v.append(cs.as_str());
            } else {
                let cs = char_to_string(c);
                k.append(cs.as_str());
            }
        } else {
            sep = false;
            if to_v {
                let cs = char_to_string(c);
                v.append(cs.as_str());
            } else {
                let cs = char_to_string(c);
                k.append(cs.as_str());
            }
        }
        i = i + 1;
    }
    (k, v)
}

/// Whether the line holds only whitespace.
pub fn all_whitespace(line: &str) -> (r: bool)
    ensures
        r <==> (forall|i: int| 0 <= i < line@.len() ==> is_whitespace_of(#[trigger] line@[i])),
{
    let chars: Vec<char> = str_chars(line);
    let clen: usize = chars.len();
    let mut i: usize = 0;
    while i < clen
        invariant
            i <= clen,
            clen == chars@.len(),
            chars@ == line@,
            forall|j: int| 0 <= j < i ==> is_whitespace_of(#[trigger] line@[j]),
        decreases clen - i,
    {
        if !char_is_whitespace(chars[i]) {
            return false;
        }
        i = i + 1;
    }
    true
}

/// Turn an I/O result into a library result, keeping the payload.
pub fn wrap_io_error<T>(value: Result<T, std::io::Error>) -> (r: Result<T, NCDError>)
    ensures
        r is Ok <==> value is Ok,
        value is Ok ==> r->Ok_0 == value->Ok_0,
        value is Err ==> r->Err_0 == NCDError::IOError(value->Err_0),
{
    match value {
        Ok(v) => Ok(v),
        Err(e) => Err(NCDError::IOError(e)),
    }
}

} // verus!
