//! A value source over line-oriented text: each line splits into a key
//! and a value at a configurable separator, with optional comment
//! stripping, tail trimming, and blank-line skipping.

use vstd::prelude::*;
use vstd::slice::slice_to_vec;
use vstd::utf8::encode_utf8;

use crate::util::{
    all_whitespace, chars_to_string, extract_pattern, extract_whitespace, find_match,
    find_match_from, is_whitespace_of, nth_match, split_whitespace_from, str_chars,
};
use crate::write::NCDValueSource;

verus! {

/// The view of an optional string.
pub open spec fn opt_view(o: Option<String>) -> Option<Seq<char>> {
    match o {
        Some(s) => Some(s@),
        None => None,
    }
}

/// A copy of an optional string.
fn clone_opt_string(o: &Option<String>) -> (r: Option<String>)
    ensures
        opt_view(r) == opt_view(*o),
{
    match o {
        Some(s) => Some(s.clone()),
        None => None,
    }
}

/// How a flat file splits into key/value pairs: which whitespace run or
/// separator occurrence splits, the separator (whitespace when absent),
/// comment handling, and tail trimming.
#[derive(Clone, Debug)]
pub struct NCDFlatConfig {
    pub index: usize,
    pub separator: Option<String>,
    pub skip_blank: bool,
    pub comment_char: Option<String>,
    pub inline_comments: bool,
    pub trim_tail: bool,
}

/// A field-by-field copy of a configuration.
fn clone_config(c: &NCDFlatConfig) -> (r: NCDFlatConfig)
    ensures
        cfg_view(r) == cfg_view(*c),
{
    NCDFlatConfig {
        index: c.index,
        separator: clone_opt_string(&c.separator),
        skip_blank: c.skip_blank,
        comment_char: clone_opt_string(&c.comment_char),
        inline_comments: c.inline_comments,
        trim_tail: c.trim_tail,
    }
}

/// The configuration as mathematics: every field by view.
pub open spec fn cfg_view(c: NCDFlatConfig) -> (
    int,
    Option<Seq<char>>,
    bool,
    Option<Seq<char>>,
    bool,
    bool,
) {
    (
        c.index as int,
        opt_view(c.separator),
        c.skip_blank,
        opt_view(c.comment_char),
        c.inline_comments,
        c.trim_tail,
    )
}

impl NCDFlatConfig {
    /// The defaults: split at the first whitespace run, skip blank
    /// lines, keep comments, trim trailing whitespace.
    pub fn new() -> (r: NCDFlatConfig)
        ensures
            r.index == 1,
            opt_view(r.separator) is None,
            r.skip_blank == true,
            opt_view(r.comment_char) is None,
            r.inline_comments == false,
            r.trim_tail == true,
    {
        NCDFlatConfig {
            index: 1,
            separator: None,
            skip_blank: true,
            comment_char: None,
            inline_comments: false,
            trim_tail: true,
        }
    }

    /// A copy splitting at the `value`-th separator occurrence.
    pub fn index(&self, value: usize) -> (r: NCDFlatConfig)
        ensures
            r.index == value,
            opt_view(r.separator) == opt_view(self.separator),
            r.skip_blank == self.skip_blank,
            opt_view(r.comment_char) == opt_view(self.comment_char),
            r.inline_comments == self.inline_comments,
            r.trim_tail == self.trim_tail,
    {
        let mut out = clone_config(self);
        out.index = value;
        out
    }

    /// A copy with another separator (`None` splits at whitespace).
    pub fn separator(&self, value: Option<String>) -> (r: NCDFlatConfig)
        ensures
            r.index == self.index,
            opt_view(r.separator) == opt_view(value),
            r.skip_blank == self.skip_blank,
            opt_view(r.comment_char) == opt_view(self.comment_char),
            r.inline_comments == self.inline_comments,
            r.trim_tail == self.trim_tail,
    {
        let mut out = clone_config(self);
        out.separator = value;
        out
    }

    /// A copy that does or does not skip blank lines.
    pub fn skip_blank(&self, value: bool) -> (r: NCDFlatConfig)
        ensures
            r.index == self.index,
            opt_view(r.separator) == opt_view(self.separator),
            r.skip_blank == value,
            opt_view(r.comment_char) == opt_view(self.comment_char),
            r.inline_comments == self.inline_comments,
            r.trim_tail == self.trim_tail,
    {
        let mut out = clone_config(self);
        out.skip_blank = value;
        out
    }

    /// A copy with another comment marker.
    pub fn comment_char(&self, value: Option<String>) -> (r: NCDFlatConfig)
        ensures
            r.index == self.index,
            opt_view(r.separator) == opt_view(self.separator),
            r.skip_blank == self.skip_blank,
            opt_view(r.comment_char) == opt_view(value),
            r.inline_comments == self.inline_comments,
            r.trim_tail == self.trim_tail,
    {
        let mut out = clone_config(self);
        out.comment_char = value;
        out
    }

    /// A copy that does or does not strip comments mid-line.
    pub fn inline_comments(&self, value: bool) -> (r: NCDFlatConfig)
        ensures
            r.index == self.index,
            opt_view(r.separator) == opt_view(self.separator),
            r.skip_blank == self.skip_blank,
            opt_view(r.comment_char) == opt_view(self.comment_char),
            r.inline_comments == value,
            r.trim_tail == self.trim_tail,
    {
        let mut out = clone_config(self);
        out.inline_comments = value;
        out
    }

    /// A copy that does or does not trim trailing whitespace.
    pub fn trim_tail(&self, value: bool) -> (r: NCDFlatConfig)
        ensures
            r.index == self.index,
            opt_view(r.separator) == opt_view(self.separator),
            r.skip_blank == self.skip_blank,
            opt_view(r.comment_char) == opt_view(self.comment_char),
            r.inline_comments == self.inline_comments,
            r.trim_tail == value,
    {
        let mut out = clone_config(self);
        out.trim_tail = value;
        out
    }
}

/// Whether every character before position `m` is whitespace.
pub open spec fn prefix_all_ws(s: Seq<char>, m: int) -> bool {
    forall|i: int| 0 <= i < m ==> is_whitespace_of(#[trigger] s[i])
}

/// The position of the last non-whitespace character before `j`, or -1.
pub open spec fn last_non_ws_before(s: Seq<char>, j: int) -> int
    decreases j,
{
    if j <= 0 {
        -1
    } else if !is_whitespace_of(s[j - 1]) {
        j - 1
    } else {
        last_non_ws_before(s, j - 1)
    }
}

/// The line with its comment cut off: everything from the first
/// occurrence of the marker, when the marker opens the line (after
/// whitespace at most) or inline comments are allowed.
pub open spec fn spec_strip_comment(s: Seq<char>, cc: Option<Seq<char>>, inline_ok: bool) -> Seq<
    char,
> {
    match cc {
        Some(p) => {
            let m = find_match(s, p, 0);
            if p.len() >= 1 && m >= 0 && (prefix_all_ws(s, m) || inline_ok) {
                s.subrange(0, m)
            } else {
                s
            }
        },
        None => s,
    }
}

/// The line with trailing whitespace cut off (kept whole when no
/// character is left to anchor the cut).
pub open spec fn spec_trim_tail(s: Seq<char>, trim: bool) -> Seq<char> {
    let last = last_non_ws_before(s, s.len() as int);
    if trim && last >= 0 {
        s.subrange(0, last + 1)
    } else {
        s
    }
}

/// The line after comment stripping and tail trimming, or nothing when
/// blank lines are skipped and only whitespace is left.
pub open spec fn spec_remove_comments(c: NCDFlatConfig, s: Seq<char>) -> Option<Seq<char>> {
    let s2 = spec_trim_tail(
        spec_strip_comment(s, opt_view(c.comment_char), c.inline_comments),
        c.trim_tail,
    );
    if c.skip_blank && (forall|i: int| 0 <= i < s2.len() ==> is_whitespace_of(#[trigger] s2[i])) {
        None
    } else {
        Some(s2)
    }
}

/// The key/value split of a prepared line: at the `index`-th occurrence
/// of the separator when one is set, at the `index`-th whitespace run
/// otherwise.
pub open spec fn spec_split(c: NCDFlatConfig, l: Seq<char>) -> (Seq<char>, Seq<char>) {
    match opt_view(c.separator) {
        Some(p) => {
            if p.len() >= 1 && c.index >= 1 {
                let m = nth_match(l, p, 0, c.index as int);
                if m >= 0 {
                    (l.subrange(0, m), l.subrange(m + p.len(), l.len() as int))
                } else {
                    (l, Seq::empty())
                }
            } else {
                split_whitespace_from(
                    l,
                    c.index as int,
                    0,
                    false,
                    0,
                    false,
                    Seq::empty(),
                    Seq::empty(),
                )
            }
        },
        None => split_whitespace_from(
            l,
            c.index as int,
            0,
            false,
            0,
            false,
            Seq::empty(),
            Seq::empty(),
        ),
    }
}

/// The pair a line yields: its split halves as UTF-8 bytes, or nothing
/// when the line is dropped.
pub open spec fn spec_line_pair(c: NCDFlatConfig, s: Seq<char>) -> Option<(Seq<u8>, Seq<u8>)> {
    match spec_remove_comments(c, s) {
        None => None,
        Some(l) => {
            let (k, v) = spec_split(c, l);
            Some((encode_utf8(k), encode_utf8(v)))
        },
    }
}

/// The pairs of the first `n` lines, in order.
pub open spec fn spec_line_pairs(c: NCDFlatConfig, lines: Seq<Seq<char>>, n: int) -> Seq<
    (Seq<u8>, Seq<u8>),
>
    decreases n,
{
    if n <= 0 {
        Seq::empty()
    } else {
        spec_line_pairs(c, lines, n - 1) + match spec_line_pair(c, lines[n - 1]) {
            Some(p) => seq![p],
            None => Seq::empty(),
        }
    }
}

/// A value source over lines of text.
pub struct NCDFlatSource {
    pub lines: Vec<String>,
    pub config: NCDFlatConfig,
}

impl NCDFlatSource {
    /// A source over `lines`, split as `config` says.
    pub fn new(lines: Vec<String>, config: &NCDFlatConfig) -> (r: NCDFlatSource)
        ensures
            r.lines == lines,
            cfg_view(r.config) == cfg_view(*config),
    {
        NCDFlatSource { lines, config: clone_config(config) }
    }

    /// Strip the comment, trim the tail, and skip the line when only
    /// whitespace is left.
    pub fn remove_comments(&self, line: &str) -> (r: Option<String>)
        ensures
            r is Some <==> spec_remove_comments(self.config, line@) is Some,
            r is Some ==> r->0@ == spec_remove_comments(self.config, line@)->0,
    {
        let chars: Vec<char> = str_chars(line);
        let clen: usize = chars.len();
        let mut end: usize = clen;
        match &self.config.comment_char {
            Some(cc) => {
                let pat: Vec<char> = str_chars(cc.as_str());
                if pat.len() >= 1 {
                    match find_match_from(&chars, &pat, 0) {
                        Some(m) => {
                            let head = chars_to_string(&chars, 0, m);
                            let prefix_ws: bool = all_whitespace(head.as_str());
                            proof {
                                if prefix_ws {
                                    assert forall|i: int| 0 <= i < m implies is_whitespace_of(
                                        #[trigger] line@[i],
                                    ) by {
                                        assert(line@[i] == head@[i]);
                                    }
                                } else {
                                    if prefix_all_ws(line@, m as int) {
                                        assert forall|i: int|
                                            0 <= i < head@.len() implies is_whitespace_of(
                                            #[trigger] head@[i],
                                        ) by {
                                            assert(head@[i] == line@[i]);
                                        }
                                        assert(false);
                                    }
                                }
                                assert(prefix_ws == prefix_all_ws(line@, m as int));
                            }
                            if prefix_ws || self.config.inline_comments {
                                end = m;
                            }
                        },
                        None => {},
                    }
                }
            },
            None => {},
        }
        let ghost s1 = spec_strip_comment(
            line@,
            opt_view(self.config.comment_char),
            self.config.inline_comments,
        );
        proof {
            assert(s1 =~= chars@.subrange(0, end as int));
        }
        if self.config.trim_tail {
            let pre_end: usize = end;
            let mut j: usize = pre_end;
            let mut done: bool = false;
            while !done && j > 0
                invariant
                    j <= pre_end <= clen,
                    clen == chars@.len(),
                    chars@ == line@,
                    last_non_ws_before(chars@, pre_end as int) == last_non_ws_before(
                        chars@,
                        j as int,
                    ),
                    done ==> j > 0 && last_non_ws_before(chars@, pre_end as int) == j - 1,
                decreases (if done { 0int } else { 1int }), j,
            {
                if !char_is_ws(chars[j - 1]) {
                    done = true;
                } else {
                    j = j - 1;
                }
            }
            proof {
                lemma_lnw_window(line@, s1, pre_end as int);
            }
            if done {
                end = j;
            }
        }
        let ghost s2 = spec_trim_tail(s1, self.config.trim_tail);
        proof {
            assert(s2 =~= chars@.subrange(0, end as int));
        }
        let out: String = chars_to_string(&chars, 0, end);
        if self.config.skip_blank && all_whitespace(out.as_str()) {
            return None;
        }
        Some(out)
    }

    /// Split one prepared line into a key/value byte pair.
    fn split_line(&self, line: &str) -> (r: (Vec<u8>, Vec<u8>))
        ensures
            (r.0@, r.1@) == ({
                let (k, v) = spec_split(self.config, line@);
                (encode_utf8(k), encode_utf8(v))
            }),
    {
        let split: (String, String) = match &self.config.separator {
            Some(sep) => {
                if !sep.as_str().is_empty() && self.config.index >= 1 {
                    extract_pattern(sep.as_str(), self.config.index, line)
                } else {
                    extract_whitespace(self.config.index, line)
                }
            },
            None => extract_whitespace(self.config.index, line),
        };
        let k: Vec<u8> = slice_to_vec(split.0.as_str().as_bytes());
        let v: Vec<u8> = slice_to_vec(split.1.as_str().as_bytes());
        (k, v)
    }

    /// All pairs the lines yield, in line order.
    pub fn extract_pairs(&self) -> (r: Vec<(Vec<u8>, Vec<u8>)>)
        ensures
            r@.map_values(|p: (Vec<u8>, Vec<u8>)| (p.0@, p.1@)) == spec_line_pairs(
                self.config,
                self.lines@.map_values(|l: String| l@),
                self.lines@.len() as int,
            ),
    {
        let count: usize = self.lines.len();
        let mut out: Vec<(Vec<u8>, Vec<u8>)> = Vec::new();
        let mut i: usize = 0;
        while i < count
            invariant
                i <= count,
                count == self.lines@.len(),
                out@.map_values(|p: (Vec<u8>, Vec<u8>)| (p.0@, p.1@)) == spec_line_pairs(
                    self.config,
                    self.lines@.map_values(|l: String| l@),
                    i as int,
                ),
            decreases count - i,
        {
            let line: &String = vstd::slice::slice_index_get(self.lines.as_slice(), i);
            match self.remove_comments(line.as_str()) {
                Some(l) => {
                    let pair = self.split_line(l.as_str());
                    out.push(pair);
                },
                None => {},
            }
            proof {
                assert(out@.map_values(|p: (Vec<u8>, Vec<u8>)| (p.0@, p.1@)) =~= spec_line_pairs(
                    self.config,
                    self.lines@.map_values(|l: String| l@),
                    i + 1,
                ));
            }
            i = i + 1;
        }
        out
    }
}

impl NCDValueSource for NCDFlatSource {
    fn pairs(&self) -> Result<Vec<(Vec<u8>, Vec<u8>)>, std::io::Error> {
        Ok(self.extract_pairs())
    }
}

/// Whether one character is whitespace (the trusted test, re-exported
/// for this module's loops).
fn char_is_ws(c: char) -> (r: bool)
    ensures
        r == is_whitespace_of(c),
{
    crate::util::char_is_whitespace(c)
}

/// Cutting a line down to `end` characters does not move the last
/// non-whitespace position found when scanning within the cut.
proof fn lemma_lnw_window(s: Seq<char>, s1: Seq<char>, end: int)
    requires
        0 <= end <= s.len(),
        s1 =~= s.subrange(0, end),
    ensures
        last_non_ws_before(s1, s1.len() as int) == last_non_ws_before(s, end),
{
    lemma_lnw_agree(s, s1, end);
}

/// Scans that see the same characters agree.
proof fn lemma_lnw_agree(s: Seq<char>, s1: Seq<char>, j: int)
    requires
        0 <= j <= s.len(),
        j <= s1.len(),
        forall|i: int| 0 <= i < j ==> s1[i] == s[i],
    ensures
        last_non_ws_before(s1, j) == last_non_ws_before(s, j),
    decreases j,
{
    if j > 0 {
        lemma_lnw_agree(s, s1, j - 1);
    }
}

} // verus!
