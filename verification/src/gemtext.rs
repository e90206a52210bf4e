//! The gemtext line tokenizer: a pull-based splitter of a document into
//! typed lines, carrying one piece of state across calls — whether it is
//! inside a fenced preformatted block.
use crate::text::{
    char_is_whitespace, find_first, find_first_ws, is_whitespace_char, starts_with_2,
    starts_with_3, starts_with_char, str_find, str_find_ws, str_trim_start_ws, trim_start_ws,
};
use vstd::prelude::*;
use vstd::string::*;

verus! {

/// One tokenized line.
#[derive(Debug, Clone, Copy, PartialEq)]
pub enum GemtextToken<'a> {
    /// An ordinary text line, tagged with the preformatted context it sits
    /// in.
    Text(&'a str, TokenPreformatted<'a>),
    /// A link line: the target, and the optional display name after it.
    Link(&'a str, Option<&'a str>),
    /// Preformatted text with the optional alt-text found after the
    /// opening fence.
    Preformatted(&'a str, Option<&'a str>),
    /// A heading line: the text and the level, the number of `#`
    /// characters.
    Heading(&'a str, u8),
    /// A list item and its indent.
    List(&'a str, u8),
    /// A quoted line.
    Quote(&'a str),
}

/// The preformatted context a text line sits in: whether a fence is open,
/// and the alt-text its opening fence carried.
#[derive(Debug, Clone, Copy, PartialEq)]
pub struct TokenPreformatted<'a> {
    pub preformatted: bool,
    pub alt_text: Option<&'a str>,
}

/// The model of a preformatted context.
#[verifier::ext_equal]
pub ghost struct PreView {
    pub preformatted: bool,
    pub alt_text: Option<Seq<char>>,
}

impl<'a> View for TokenPreformatted<'a> {
    type V = PreView;

    open spec fn view(&self) -> PreView {
        PreView {
            preformatted: self.preformatted,
            alt_text: match self.alt_text {
                Some(s) => Some(s@),
                None => None,
            },
        }
    }
}

/// The model of one token.
#[verifier::ext_equal]
pub ghost enum TokenView {
    Text(Seq<char>, PreView),
    Link(Seq<char>, Option<Seq<char>>),
    Preformatted(Seq<char>, Option<Seq<char>>),
    Heading(Seq<char>, u8),
    List(Seq<char>, u8),
    Quote(Seq<char>),
}

pub open spec fn view_opt(o: Option<&str>) -> Option<Seq<char>> {
    match o {
        Some(s) => Some(s@),
        None => None,
    }
}

impl<'a> View for GemtextToken<'a> {
    type V = TokenView;

    open spec fn view(&self) -> TokenView {
        match *self {
            GemtextToken::Text(t, p) => TokenView::Text(t@, p@),
            GemtextToken::Link(t, d) => TokenView::Link(t@, view_opt(d)),
            GemtextToken::Preformatted(t, a) => TokenView::Preformatted(t@, view_opt(a)),
            GemtextToken::Heading(t, n) => TokenView::Heading(t@, n),
            GemtextToken::List(t, n) => TokenView::List(t@, n),
            GemtextToken::Quote(t) => TokenView::Quote(t@),
        }
    }
}

/// `l` without a single trailing carriage return.
pub open spec fn strip_cr(l: Seq<char>) -> Seq<char> {
    if l.len() > 0 && l[l.len() - 1] == '\r' {
        l.subrange(0, l.len() - 1)
    } else {
        l
    }
}

/// The lines of a document: split at every `\n`, a carriage return before
/// the split stripped, the final line ending optional.
pub open spec fn spec_lines(s: Seq<char>) -> Seq<Seq<char>>
    decreases s.len(),
    via spec_lines_decreases
{
    if s.len() == 0 {
        Seq::<Seq<char>>::empty()
    } else {
        match find_first(s, '\n') {
            Some(i) => seq![strip_cr(s.subrange(0, i))] + spec_lines(
                s.subrange(i + 1, s.len() as int),
            ),
            None => seq![s],
        }
    }
}

#[via_fn]
proof fn spec_lines_decreases(s: Seq<char>) {
    if s.len() > 0 {
        crate::text::lemma_find_first(s, '\n');
    }
}

/// A line that opens or closes a preformatted block.
pub open spec fn is_fence(l: Seq<char>) -> bool {
    l.len() >= 3 && l[0] == '`' && l[1] == '`' && l[2] == '`'
}

/// The alt-text after an opening fence: the rest of the line, leading
/// whitespace trimmed.
pub open spec fn fence_alt(l: Seq<char>) -> Seq<char> {
    trim_start_ws(l.subrange(3, l.len() as int))
}

/// The length of the leading run of `#` characters of `s`.
pub open spec fn leading_hashes(s: Seq<char>) -> int
    decreases s.len(),
{
    if s.len() > 0 && s[0] == '#' {
        1 + leading_hashes(s.skip(1))
    } else {
        0
    }
}

/// `leading_hashes` counts `#` characters up to the first other character.
pub proof fn lemma_leading_hashes(s: Seq<char>)
    ensures
        0 <= leading_hashes(s) <= s.len(),
        forall|j: int| 0 <= j < leading_hashes(s) ==> s[j] == '#',
        leading_hashes(s) < s.len() ==> s[leading_hashes(s)] != '#',
    decreases s.len(),
{
    if s.len() > 0 && s[0] == '#' {
        let t = s.skip(1);
        lemma_leading_hashes(t);
        assert forall|j: int| 0 <= j < leading_hashes(s) implies s[j] == '#' by {
            if j > 0 {
                assert(t[j - 1] == s[j]);
            }
        }
        if leading_hashes(s) < s.len() {
            assert(t[leading_hashes(s) - 1] == s[leading_hashes(s)]);
        }
    }
}

/// What one line outside the fence rules becomes: a heading for a leading
/// run of one to three `#` characters, whose length is the level and which
/// is stripped along with the whitespace after it; a link for `=>`
/// followed by whitespace, split at the next whitespace run; otherwise a
/// text line in the current preformatted context.
pub open spec fn classify_line(l: Seq<char>, pre: PreView) -> TokenView {
    if !pre.preformatted && l.len() > 0 && l[0] == '#' {
        if leading_hashes(l) < 4 {
            TokenView::Heading(
                trim_start_ws(l.subrange(leading_hashes(l), l.len() as int)),
                leading_hashes(l) as u8,
            )
        } else {
            TokenView::Text(l, pre)
        }
    } else if !pre.preformatted && l.len() >= 2 && l[0] == '=' && l[1] == '>' {
        let rest = l.subrange(2, l.len() as int);
        if rest.len() > 0 && is_whitespace_char(rest[0]) {
            let t = trim_start_ws(rest);
            match find_first_ws(t) {
                Some(i) => TokenView::Link(
                    t.subrange(0, i),
                    Some(trim_start_ws(t.subrange(i + 1, t.len() as int))),
                ),
                None => TokenView::Link(t, None),
            }
        } else {
            TokenView::Text(l, pre)
        }
    } else {
        TokenView::Text(l, pre)
    }
}

/// One tokenizer step.  A fence line toggles the preformatted state,
/// captures the alt-text when opening, and consumes the following line in
/// the same step; a fence at the end of the document comes back as a plain
/// text line.  Any other line is classified under the current state.
pub open spec fn spec_next(lines: Seq<Seq<char>>, idx: int, pre: PreView) -> Option<
    (TokenView, int, PreView),
> {
    if idx >= lines.len() {
        None
    } else {
        let l = lines[idx];
        if is_fence(l) {
            let pre1 = PreView {
                preformatted: !pre.preformatted,
                alt_text: if !pre.preformatted {
                    Some(fence_alt(l))
                } else {
                    pre.alt_text
                },
            };
            if idx + 1 >= lines.len() {
                Some(
                    (
                        TokenView::Text(l, PreView { preformatted: false, alt_text: None }),
                        idx + 1,
                        pre1,
                    ),
                )
            } else {
                Some((classify_line(lines[idx + 1], pre1), idx + 2, pre1))
            }
        } else {
            Some((classify_line(l, pre), idx + 1, pre))
        }
    }
}

/// The model of a tokenizer: the document's lines, the position of the
/// next unread line, and the carried preformatted context.
#[verifier::ext_equal]
pub ghost struct GemtextView {
    pub lines: Seq<Seq<char>>,
    pub idx: int,
    pub pre: PreView,
}

/// A tokenizer over one document.
#[derive(Debug, Clone)]
pub struct Gemtext<'a> {
    lines: Vec<&'a str>,
    idx: usize,
    pre: TokenPreformatted<'a>,
}

impl<'a> View for Gemtext<'a> {
    type V = GemtextView;

    closed spec fn view(&self) -> GemtextView {
        GemtextView { lines: self.lines.deep_view(), idx: self.idx as int, pre: self.pre@ }
    }
}

/// The length of the leading run of `#` characters.
fn leading_hash_run(s: &str) -> (r: usize)
    ensures
        r as int == leading_hashes(s@),
        r <= s@.len(),
{
    let n = s.unicode_len();
    let mut i: usize = 0;
    while i < n && s.get_char(i) == '#'
        invariant
            i <= n,
            n == s@.len(),
            forall|j: int| 0 <= j < i ==> s@[j] == '#',
        decreases n - i,
    {
        i = i + 1;
    }
    proof {
        lemma_leading_hashes(s@);
    }
    i
}

/// Classifies one line under a given preformatted context.
fn classify<'a>(line: &'a str, pre: TokenPreformatted<'a>) -> (r: GemtextToken<'a>)
    ensures
        r@ == classify_line(line@, pre@),
{
    if !pre.preformatted && starts_with_char(line, '#') {
        let run = leading_hash_run(line);
        if run < 4 {
            let n = line.unicode_len();
            return GemtextToken::Heading(str_trim_start_ws(line.substring_char(run, n)), run as u8);
        }
        return GemtextToken::Text(line, pre);
    }
    if !pre.preformatted && starts_with_2(line, '=', '>') {
        let n = line.unicode_len();
        let rest = line.substring_char(2, n);
        let ws_start = if rest.unicode_len() > 0 {
            char_is_whitespace(rest.get_char(0))
        } else {
            false
        };
        if ws_start {
            let t = str_trim_start_ws(rest);
            match str_find_ws(t) {
                Some(i) => {
                    let tn = t.unicode_len();
                    return GemtextToken::Link(
                        t.substring_char(0, i),
                        Some(str_trim_start_ws(t.substring_char(i + 1, tn))),
                    );
                },
                None => {
                    return GemtextToken::Link(t, None);
                },
            }
        }
        return GemtextToken::Text(line, pre);
    }
    GemtextToken::Text(line, pre)
}

/// Splits a document into its lines.
fn split_lines<'a>(src: &'a str) -> (r: Vec<&'a str>)
    ensures
        r.deep_view() == spec_lines(src@),
{
    let n = src.unicode_len();
    let mut out: Vec<&'a str> = Vec::new();
    let mut pos: usize = 0;
    proof {
        assert(src@.subrange(0, n as int) =~= src@);
        assert(out.deep_view() =~= Seq::<Seq<char>>::empty());
    }
    while pos < n
        invariant
            pos <= n,
            n == src@.len(),
            spec_lines(src@) == out.deep_view() + spec_lines(src@.subrange(pos as int, n as int)),
        decreases n - pos,
    {
        let ghost out0 = out.deep_view();
        let ghost rem0 = src@.subrange(pos as int, n as int);
        let rem = src.substring_char(pos, n);
        match str_find(rem, '\n') {
            Some(i) => {
                let line = if i > 0 && rem.get_char(i - 1) == '\r' {
                    let l = rem.substring_char(0, i - 1);
                    proof {
                        assert(rem0.subrange(0, i as int).subrange(0, i - 1) =~= rem0.subrange(
                            0,
                            i - 1,
                        ));
                        assert(l@ == strip_cr(rem0.subrange(0, i as int)));
                    }
                    l
                } else {
                    let l = rem.substring_char(0, i);
                    proof {
                        assert(l@ == strip_cr(rem0.subrange(0, i as int)));
                    }
                    l
                };
                proof {
                    assert(rem0.subrange(i + 1, rem0.len() as int) =~= src@.subrange(
                        pos + i + 1,
                        n as int,
                    ));
                }
                out.push(line);
                pos = pos + i + 1;
                proof {
                    assert(out.deep_view() =~= out0.push(line@));
                    assert(out0 + (seq![line@] + spec_lines(
                        src@.subrange(pos as int, n as int),
                    )) =~= out.deep_view() + spec_lines(src@.subrange(pos as int, n as int)));
                }
            },
            None => {
                out.push(rem);
                pos = n;
                proof {
                    assert(spec_lines(rem0) == seq![rem0]);
                    assert(out.deep_view() =~= out0.push(rem0));
                    assert(out0 + seq![rem0] =~= out.deep_view());
                    assert(spec_lines(src@.subrange(pos as int, n as int))
                        =~= Seq::<Seq<char>>::empty());
                    assert(out.deep_view() + Seq::<Seq<char>>::empty() =~= out.deep_view());
                }
            },
        }
    }
    proof {
        assert(spec_lines(src@.subrange(n as int, n as int)) =~= Seq::<Seq<char>>::empty());
        assert(out.deep_view() + Seq::<Seq<char>>::empty() =~= out.deep_view());
    }
    out
}

impl<'a> Gemtext<'a> {
    /// There is never a line to read before the start of the document.
    pub open spec fn wf(&self) -> bool {
        0 <= self@.idx <= self@.lines.len()
    }

    /// Starts a tokenizer at the top of `src`, outside any preformatted
    /// block.
    pub fn new(src: &'a str) -> (r: Gemtext<'a>)
        ensures
            r.wf(),
            r@.lines == spec_lines(src@),
            r@.idx == 0,
            r@.pre == (PreView { preformatted: false, alt_text: None }),
    {
        Gemtext {
            lines: split_lines(src),
            idx: 0,
            pre: TokenPreformatted { preformatted: false, alt_text: None },
        }
    }

    /// Produces the next token, stepping the state exactly as `spec_next`
    /// describes, and nothing once the lines run out.
    pub fn next(&mut self) -> (r: Option<GemtextToken<'a>>)
        requires
            old(self).wf(),
        ensures
            final(self).wf(),
            final(self)@.lines == old(self)@.lines,
            match spec_next(old(self)@.lines, old(self)@.idx, old(self)@.pre) {
                None => r is None && final(self)@ == old(self)@,
                Some((t, idx2, pre2)) => r matches Some(tok) && tok@ == t && final(self)@.idx
                    == idx2 && final(self)@.pre == pre2,
            },
    {
        if self.idx >= self.lines.len() {
            return None;
        }
        let mut line: &'a str = self.lines[self.idx];
        if starts_with_3(line, '`', '`', '`') {
            let was = self.pre.preformatted;
            self.pre.preformatted = !was;
            if !was {
                let n = line.unicode_len();
                self.pre.alt_text = Some(str_trim_start_ws(line.substring_char(3, n)));
            }
            self.idx = self.idx + 1;
            if self.idx >= self.lines.len() {
                return Some(
                    GemtextToken::Text(
                        line,
                        TokenPreformatted { preformatted: false, alt_text: None },
                    ),
                );
            }
            line = self.lines[self.idx];
            self.idx = self.idx + 1;
            return Some(classify(line, self.pre));
        }
        self.idx = self.idx + 1;
        Some(classify(line, self.pre))
    }
}

} // verus!
