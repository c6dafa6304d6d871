//! The Canonical Fragment Identifier grammar: a single-pass scanner over the
//! characters of a CFI string.
//!
//! ```text
//! cfi        := path ('!' path)* [range]
//! path       := ('/' step)+
//! step       := digits ['[' assertion-text ']']
//! range      := rangemark '/' digits ':' digits ',' '/' digits ':' digits
//! rangemark  := one of ',' ':' '~' '@'
//! ```
//!
//! On `!` the finished step sequence is closed into a [`Path`]; a range mark
//! discards any in-progress step sequence and the range clause ends the
//! parse. A step sequence still open at end-of-input is discarded the same
//! way. The parser is strict: an unexpected character, a missing digit, a
//! number over the index type's range, or end-of-input where the grammar
//! expects a character all fail with a `CfiError` carrying the cursor
//! position.

use vstd::prelude::*;

use crate::error::{EpubError, ErrV};
use crate::text::{push_char, spec_dec, usize_to_string};

verus! {

/// The mathematical shape of one step.
pub struct StepV {
    pub index: u32,
    pub assertion: Option<Seq<char>>,
}

/// The mathematical shape of one range endpoint.
pub struct RangeItemV {
    pub offset: u32,
    pub n: u32,
}

/// The mathematical shape of a range clause.
pub struct RangeV {
    pub start: RangeItemV,
    pub end: RangeItemV,
}

/// The mathematical shape of a parsed CFI.
pub struct CfiV {
    pub paths: Seq<Seq<StepV>>,
    pub range: Option<RangeV>,
}

/// One step of a path: the raw index and an optional bracketed assertion,
/// kept as free-form text.
#[derive(Debug, Clone)]
pub struct Step {
    index: u32,
    assertion: Option<String>,
}

impl View for Step {
    type V = StepV;

    closed spec fn view(&self) -> StepV {
        StepV { index: self.index, assertion: crate::text::opt_str_view(self.assertion) }
    }
}

impl Step {
    /// The logical child index: CFI numbers alternate even (element) and odd
    /// (text node) positions, so the raw number is halved.
    pub fn index(&self) -> (r: u32)
        ensures
            r == self@.index / 2,
    {
        self.index / 2
    }
}

/// A point offset; reserved by the grammar.
#[derive(Debug, Clone)]
pub struct Offset {}

/// One `!`-separated step sequence.
#[derive(Debug, Clone)]
pub struct Path {
    pub steps: Vec<Step>,
}

impl View for Path {
    type V = Seq<StepV>;

    open spec fn view(&self) -> Seq<StepV> {
        self.steps@.map_values(|s: Step| s@)
    }
}

impl Path {
    pub fn steps(&self) -> (r: &[Step])
        ensures
            r@.map_values(|s: Step| s@) == self@,
    {
        self.steps.as_slice()
    }
}

/// One endpoint of a range clause: the raw offset `M` and the step number
/// `N` of a `/N:M` group.
#[derive(Debug, Clone, PartialEq, Eq)]
pub struct RangeItem {
    offset: u32,
    n: u32,
}

impl View for RangeItem {
    type V = RangeItemV;

    closed spec fn view(&self) -> RangeItemV {
        RangeItemV { offset: self.offset, n: self.n }
    }
}

impl RangeItem {
    pub fn new(offset: u32, n: u32) -> (r: RangeItem)
        ensures
            r@ == (RangeItemV { offset, n }),
    {
        RangeItem { offset, n }
    }

    /// An even raw offset addresses an element; an odd one a text position.
    pub fn is_element(&self) -> (r: bool)
        ensures
            r == (self@.offset % 2 == 0),
    {
        self.offset % 2 == 0
    }

    /// The logical offset: `(raw - 1) / 2` for a text position, and
    /// `raw / 2 - 1` for an element. A raw element offset of zero has no
    /// logical offset, so it is ruled out.
    pub fn offset(&self) -> (r: u32)
        requires
            self@.offset % 2 == 0 ==> self@.offset >= 2,
        ensures
            r == (if self@.offset % 2 == 0 {
                self@.offset / 2 - 1
            } else {
                (self@.offset - 1) / 2
            }),
    {
        if self.is_element() {
            self.offset / 2 - 1
        } else {
            (self.offset - 1) / 2
        }
    }
}

/// The trailing range clause: a start and an end point.
#[derive(Debug, Clone)]
pub struct Range {
    pub start: RangeItem,
    pub end: RangeItem,
}

impl View for Range {
    type V = RangeV;

    open spec fn view(&self) -> RangeV {
        RangeV { start: self.start@, end: self.end@ }
    }
}

impl Range {
    pub fn start_offset(&self) -> (r: u32)
        requires
            self@.start.offset % 2 == 0 ==> self@.start.offset >= 2,
        ensures
            r == (if self@.start.offset % 2 == 0 {
                self@.start.offset / 2 - 1
            } else {
                (self@.start.offset - 1) / 2
            }),
    {
        self.start.offset()
    }

    pub fn end_offset(&self) -> (r: u32)
        requires
            self@.end.offset % 2 == 0 ==> self@.end.offset >= 2,
        ensures
            r == (if self@.end.offset % 2 == 0 {
                self@.end.offset / 2 - 1
            } else {
                (self@.end.offset - 1) / 2
            }),
    {
        self.end.offset()
    }
}

/// A parsed CFI: the `!`-separated paths, the first being the spine-level
/// step sequence, and the optional trailing range.
#[derive(Debug, Clone)]
pub struct Epubcfi {
    paths: Vec<Path>,
    range: Option<Range>,
}

impl View for Epubcfi {
    type V = CfiV;

    closed spec fn view(&self) -> CfiV {
        CfiV {
            paths: self.paths@.map_values(|p: Path| p@),
            range: match self.range {
                Some(r) => Some(r@),
                None => None,
            },
        }
    }
}

/// A `CfiError` whose message ends with the decimal cursor position.
pub open spec fn cfi_err(prefix: Seq<char>, pos: int) -> ErrV
    recommends
        pos >= 0,
{
    ErrV::Cfi(prefix + spec_dec(pos as nat))
}

pub open spec fn is_digit(c: char) -> bool {
    c == '0' || c == '1' || c == '2' || c == '3' || c == '4' || c == '5' || c == '6' || c == '7'
        || c == '8' || c == '9'
}

/// The numeric value of one digit character.
pub open spec fn digit_val(c: char) -> int {
    if c == '0' {
        0
    } else if c == '1' {
        1
    } else if c == '2' {
        2
    } else if c == '3' {
        3
    } else if c == '4' {
        4
    } else if c == '5' {
        5
    } else if c == '6' {
        6
    } else if c == '7' {
        7
    } else if c == '8' {
        8
    } else {
        9
    }
}

/// The first index at or after `i` that does not hold a digit.
pub open spec fn digits_end(s: Seq<char>, i: int) -> int
    decreases s.len() - i,
{
    if !(0 <= i < s.len()) {
        i
    } else if !is_digit(s[i]) {
        i
    } else {
        digits_end(s, i + 1)
    }
}

/// The decimal value of the digits `s[i..j)`.
pub open spec fn digits_val(s: Seq<char>, i: int, j: int) -> int
    decreases j - i,
{
    if i >= j {
        0
    } else {
        digits_val(s, i, j - 1) * 10 + digit_val(s[j - 1])
    }
}

pub proof fn lemma_digits_end_bounds(s: Seq<char>, i: int)
    requires
        0 <= i <= s.len(),
    ensures
        i <= digits_end(s, i) <= s.len(),
    decreases s.len() - i,
{
    if i < s.len() && is_digit(s[i]) {
        lemma_digits_end_bounds(s, i + 1);
    }
}

/// Every character of a digit run is a digit.
pub proof fn lemma_digits_end_digits(s: Seq<char>, i: int)
    ensures
        forall|k: int| i <= k < digits_end(s, i) ==> is_digit(s[k]),
    decreases s.len() - i,
{
    if 0 <= i < s.len() && is_digit(s[i]) {
        lemma_digits_end_digits(s, i + 1);
    }
}

pub proof fn lemma_digits_val_nonneg(s: Seq<char>, i: int, j: int)
    ensures
        digits_val(s, i, j) >= 0,
    decreases j - i,
{
    if i < j {
        lemma_digits_val_nonneg(s, i, j - 1);
    }
}

/// A longer digit run never has a smaller value.
pub proof fn lemma_digits_val_mono(s: Seq<char>, i: int, k: int, j: int)
    requires
        k <= j,
    ensures
        digits_val(s, i, k) <= digits_val(s, i, j),
    decreases j - k,
{
    if k < j {
        lemma_digits_val_mono(s, i, k, j - 1);
        lemma_digits_val_nonneg(s, i, j - 1);
    }
}

/// The index of the first `]` at or after `i`.
pub open spec fn close_bracket(s: Seq<char>, i: int) -> Option<int>
    decreases s.len() - i,
{
    if !(0 <= i < s.len()) {
        None
    } else if s[i] == ']' {
        Some(i)
    } else {
        close_bracket(s, i + 1)
    }
}

pub proof fn lemma_close_bracket_bounds(s: Seq<char>, i: int)
    requires
        0 <= i,
    ensures
        match close_bracket(s, i) {
            Some(k) => i <= k < s.len(),
            None => true,
        },
    decreases s.len() - i,
{
    if 0 <= i < s.len() && s[i] != ']' {
        lemma_close_bracket_bounds(s, i + 1);
    }
}

/// One step, scanned at `i` (just past the `/`): its digits, then an
/// optional bracketed assertion. Yields the step and the next cursor.
pub open spec fn spec_step(s: Seq<char>, i: int) -> Result<(StepV, int), ErrV> {
    let j = digits_end(s, i);
    if j == i {
        Err(cfi_err("expected a digit at :"@, i))
    } else if digits_val(s, i, j) > u32::MAX {
        Err(cfi_err("number too large at :"@, j))
    } else {
        let idx = digits_val(s, i, j) as u32;
        if j < s.len() && s[j] == '[' {
            match close_bracket(s, j + 1) {
                None => Err(cfi_err("expected ']' at :"@, s.len() as int)),
                Some(k) => Ok(
                    (StepV { index: idx, assertion: Some(s.subrange(j + 1, k)) }, k + 1),
                ),
            }
        } else {
            Ok((StepV { index: idx, assertion: None }, j))
        }
    }
}

/// A step scan moves the cursor forward, and never past the end.
pub proof fn lemma_step_bounds(s: Seq<char>, i: int)
    requires
        0 <= i <= s.len(),
    ensures
        match spec_step(s, i) {
            Ok((st, j)) => i < j <= s.len(),
            Err(e) => true,
        },
{
    lemma_digits_end_bounds(s, i);
    let j = digits_end(s, i);
    if j != i && digits_val(s, i, j) <= u32::MAX && j < s.len() && s[j] == '[' {
        lemma_close_bracket_bounds(s, j + 1);
    }
}

/// One `/N:M` group of a range clause, scanned at `i`. Yields the endpoint
/// `{offset: M, n: N}` and the next cursor.
pub open spec fn spec_range_item(s: Seq<char>, i: int) -> Result<(RangeItemV, int), ErrV> {
    if !(0 <= i < s.len() && s[i] == '/') {
        Err(cfi_err("expected '/' at :"@, i))
    } else {
        let j = digits_end(s, i + 1);
        if j == i + 1 {
            Err(cfi_err("expected a digit at :"@, i + 1))
        } else if digits_val(s, i + 1, j) > u32::MAX {
            Err(cfi_err("number too large at :"@, j))
        } else {
            let n = digits_val(s, i + 1, j) as u32;
            if !(j < s.len() && s[j] == ':') {
                Err(cfi_err("expected ':' at :"@, j))
            } else {
                let j2 = digits_end(s, j + 1);
                if j2 == j + 1 {
                    Err(cfi_err("expected a digit at :"@, j + 1))
                } else if digits_val(s, j + 1, j2) > u32::MAX {
                    Err(cfi_err("number too large at :"@, j2))
                } else {
                    Ok((RangeItemV { offset: digits_val(s, j + 1, j2) as u32, n: n }, j2))
                }
            }
        }
    }
}

/// The whole range clause: two `/N:M` groups separated by a comma.
pub open spec fn spec_range(s: Seq<char>, i: int) -> Result<(RangeV, int), ErrV> {
    match spec_range_item(s, i) {
        Err(e) => Err(e),
        Ok((start, j)) => if !(0 <= j < s.len() && s[j] == ',') {
            Err(cfi_err("expected ',' at :"@, j))
        } else {
            match spec_range_item(s, j + 1) {
                Err(e) => Err(e),
                Ok((end, j2)) => Ok((RangeV { start, end }, j2)),
            }
        },
    }
}

/// The top-level scan from cursor `i`, with `steps` the in-progress step
/// sequence and `paths` the paths closed so far. At end-of-input an
/// unfinished step sequence is discarded; a range clause ends the scan.
pub open spec fn spec_parse_cfi(
    s: Seq<char>,
    i: int,
    steps: Seq<StepV>,
    paths: Seq<Seq<StepV>>,
) -> Result<CfiV, ErrV>
    decreases s.len() - i,
{
    if !(0 <= i < s.len()) {
        Ok(CfiV { paths, range: None })
    } else if s[i] == '/' {
        match spec_step(s, i + 1) {
            Err(e) => Err(e),
            // the guard is settled by lemma_step_bounds; it keeps the
            // recursion visibly bounded
            Ok((st, j)) => if i < j <= s.len() {
                spec_parse_cfi(s, j, steps.push(st), paths)
            } else {
                Err(cfi_err("unexpected character at :"@, i))
            },
        }
    } else if s[i] == '!' {
        if steps.len() > 0 {
            spec_parse_cfi(s, i + 1, Seq::empty(), paths.push(steps))
        } else {
            spec_parse_cfi(s, i + 1, steps, paths)
        }
    } else if s[i] == ',' || s[i] == ':' || s[i] == '~' || s[i] == '@' {
        match spec_range(s, i + 1) {
            Err(e) => Err(e),
            Ok((r, _)) => Ok(CfiV { paths, range: Some(r) }),
        }
    } else {
        Err(cfi_err("unexpected character at :"@, i))
    }
}

/// What parsing a whole CFI string yields.
pub open spec fn spec_cfi(s: Seq<char>) -> Result<CfiV, ErrV> {
    spec_parse_cfi(s, 0, Seq::empty(), Seq::empty())
}

/// A step scanned at end-of-input fails, and the error carries the final
/// cursor position: a `/` dangling at the end of a CFI never yields a step
/// silently. The scan reaches that position with the string exhausted, so
/// the whole parse fails with this very error.
pub proof fn lemma_step_at_end_fails(s: Seq<char>)
    ensures
        spec_step(s, s.len() as int) == Err::<(StepV, int), ErrV>(
            cfi_err("expected a digit at :"@, s.len() as int),
        ),
{
}

/// A `CfiError` whose message ends with the decimal cursor position.
fn cfi_error(prefix: &str, pos: usize) -> (e: EpubError)
    ensures
        e@ == cfi_err(prefix@, pos as int),
{
    EpubError::CfiError(String::from_str(prefix).concat(usize_to_string(pos).as_str()))
}

fn digit_value(c: char) -> (r: u32)
    ensures
        is_digit(c) ==> r == digit_val(c),
        r <= 9,
{
    if c == '0' {
        0
    } else if c == '1' {
        1
    } else if c == '2' {
        2
    } else if c == '3' {
        3
    } else if c == '4' {
        4
    } else if c == '5' {
        5
    } else if c == '6' {
        6
    } else if c == '7' {
        7
    } else if c == '8' {
        8
    } else {
        9
    }
}

fn is_digit_char(c: char) -> (r: bool)
    ensures
        r == is_digit(c),
{
    c == '0' || c == '1' || c == '2' || c == '3' || c == '4' || c == '5' || c == '6' || c == '7'
        || c == '8' || c == '9'
}

/// The single-pass scanner: the characters and a cursor.
pub struct EpubCfiParser<'a> {
    content: &'a [char],
    current: usize,
}

impl<'a> EpubCfiParser<'a> {
    /// The characters being scanned.
    pub closed spec fn content_view(&self) -> Seq<char> {
        self.content@
    }

    /// The cursor position.
    pub closed spec fn pos(&self) -> int {
        self.current as int
    }

    pub fn new(content: &'a [char]) -> (r: Self)
        ensures
            r.content_view() == content@,
            r.pos() == 0,
    {
        EpubCfiParser { content, current: 0 }
    }

    fn is_finish(&self) -> (r: bool)
        ensures
            r == (self.pos() >= self.content_view().len()),
    {
        self.current >= self.content.len()
    }

    fn current(&self) -> (r: usize)
        ensures
            r == self.pos(),
    {
        self.current
    }

    /// Scans a run of digits and accumulates its decimal value; no digit at
    /// all, or a value over the index type's range, is an error at the
    /// cursor.
    fn read_number(&mut self) -> (r: Result<u32, EpubError>)
        requires
            old(self).pos() <= old(self).content_view().len(),
        ensures
            final(self).content_view() == old(self).content_view(),
            ({
                let s = old(self).content_view();
                let i = old(self).pos();
                let j = digits_end(s, i);
                match r {
                    Ok(v) => j != i && digits_val(s, i, j) <= u32::MAX && v == digits_val(s, i, j)
                        && final(self).pos() == j && i < j <= s.len(),
                    Err(e) => final(self).pos() == old(self).pos() && ((j == i && e@ == cfi_err(
                        "expected a digit at :"@,
                        i,
                    )) || (j != i && digits_val(s, i, j) > u32::MAX && e@ == cfi_err(
                        "number too large at :"@,
                        j,
                    ))),
                }
            }),
    {
        let ghost s = self.content_view();
        let start = self.current;
        let n = self.content.len();
        while self.current < n && is_digit_char(self.content[self.current])
            invariant
                self.content_view() == s,
                s == old(self).content_view(),
                start as int == old(self).pos(),
                n == s.len(),
                start <= self.current <= n,
                digits_end(s, start as int) == digits_end(s, self.current as int),
            decreases n - self.current,
        {
            self.current = self.current + 1;
        }
        let j = self.current;
        proof {
            assert(digits_end(s, j as int) == j as int);
            lemma_digits_val_nonneg(s, start as int, j as int);
        }
        if j == start {
            return Err(cfi_error("expected a digit at :", start));
        }
        let mut val: u32 = 0;
        let mut k: usize = start;
        while k < j
            invariant
                self.content_view() == s,
                s == old(self).content_view(),
                start as int == old(self).pos(),
                self.current == j,
                start <= k <= j,
                j as int == digits_end(s, start as int),
                j <= s.len(),
                val == digits_val(s, start as int, k as int),
            decreases j - k,
        {
            proof {
                lemma_digits_end_digits(s, start as int);
                assert(is_digit(s[k as int]));
            }
            let d = digit_value(self.content[k]);
            if val > (u32::MAX - d) / 10 {
                proof {
                    assert(digits_val(s, start as int, k + 1) == val * 10 + digit_val(
                        s[k as int],
                    ));
                    assert(val * 10 + d > u32::MAX) by (nonlinear_arith)
                        requires
                            val > (u32::MAX - d) / 10,
                            d <= 9,
                    ;
                    lemma_digits_val_mono(s, start as int, k + 1, j as int);
                }
                self.current = start;
                return Err(cfi_error("number too large at :", j));
            }
            proof {
                assert(val * 10 + d <= u32::MAX) by (nonlinear_arith)
                    requires
                        val <= (u32::MAX - d) / 10,
                        d <= 9,
                ;
            }
            val = val * 10 + d;
            k = k + 1;
        }
        Ok(val)
    }

    /// Scans one step, the cursor standing just past its `/`.
    fn parse_path_item(&mut self) -> (r: Result<Step, EpubError>)
        requires
            old(self).pos() <= old(self).content_view().len(),
        ensures
            final(self).content_view() == old(self).content_view(),
            ({
                let s = old(self).content_view();
                let i = old(self).pos();
                match r {
                    Ok(st) => spec_step(s, i) == Ok::<(StepV, int), ErrV>(
                        (st@, final(self).pos()),
                    ) && i < final(self).pos() <= s.len(),
                    Err(e) => spec_step(s, i) == Err::<(StepV, int), ErrV>(e@),
                }
            }),
    {
        let ghost s = self.content_view();
        let ghost i = self.pos();
        let index = match self.read_number() {
            Ok(v) => v,
            Err(e) => {
                return Err(e);
            },
        };
        let n = self.content.len();
        let ghost j = self.pos();
        if self.current < n && self.content[self.current] == '[' {
            let astart = self.current + 1;
            let mut k: usize = astart;
            while k < n && self.content[k] != ']'
                invariant
                    self.content_view() == s,
                    n == s.len(),
                    astart <= k <= n,
                    close_bracket(s, astart as int) == close_bracket(s, k as int),
                decreases n - k,
            {
                k = k + 1;
            }
            if k == n {
                proof {
                    assert(close_bracket(s, k as int) is None);
                }
                return Err(cfi_error("expected ']' at :", n));
            }
            proof {
                assert(close_bracket(s, astart as int) == Some(k as int));
            }
            let mut text = String::new();
            let mut m: usize = astart;
            while m < k
                invariant
                    self.content_view() == s,
                    astart <= m <= k,
                    k < s.len(),
                    text@ == s.subrange(astart as int, m as int),
                decreases k - m,
            {
                push_char(&mut text, self.content[m]);
                proof {
                    assert(s.subrange(astart as int, m + 1) =~= s.subrange(
                        astart as int,
                        m as int,
                    ).push(s[m as int]));
                }
                m = m + 1;
            }
            self.current = k + 1;
            Ok(Step { index, assertion: Some(text) })
        } else {
            Ok(Step { index, assertion: None })
        }
    }

    /// Scans one `/N:M` group of a range clause.
    fn parse_range_item(&mut self) -> (r: Result<RangeItem, EpubError>)
        requires
            old(self).pos() <= old(self).content_view().len(),
        ensures
            final(self).content_view() == old(self).content_view(),
            ({
                let s = old(self).content_view();
                let i = old(self).pos();
                match r {
                    Ok(it) => spec_range_item(s, i) == Ok::<(RangeItemV, int), ErrV>(
                        (it@, final(self).pos()),
                    ) && i < final(self).pos() <= s.len(),
                    Err(e) => spec_range_item(s, i) == Err::<(RangeItemV, int), ErrV>(e@),
                }
            }),
    {
        if self.is_finish() || self.content[self.current] != '/' {
            return Err(cfi_error("expected '/' at :", self.current()));
        }
        self.current = self.current + 1;
        let num = match self.read_number() {
            Ok(v) => v,
            Err(e) => {
                return Err(e);
            },
        };
        if self.is_finish() || self.content[self.current] != ':' {
            return Err(cfi_error("expected ':' at :", self.current()));
        }
        self.current = self.current + 1;
        let offset = match self.read_number() {
            Ok(v) => v,
            Err(e) => {
                return Err(e);
            },
        };
        Ok(RangeItem { offset, n: num })
    }

    /// Scans the whole range clause: two `/N:M` groups around a comma.
    fn parse_range(&mut self) -> (r: Result<Range, EpubError>)
        requires
            old(self).pos() <= old(self).content_view().len(),
        ensures
            final(self).content_view() == old(self).content_view(),
            ({
                let s = old(self).content_view();
                let i = old(self).pos();
                match r {
                    Ok(rg) => spec_range(s, i) == Ok::<(RangeV, int), ErrV>(
                        (rg@, final(self).pos()),
                    ) && i < final(self).pos() <= s.len(),
                    Err(e) => spec_range(s, i) == Err::<(RangeV, int), ErrV>(e@),
                }
            }),
    {
        let start = match self.parse_range_item() {
            Ok(v) => v,
            Err(e) => {
                return Err(e);
            },
        };
        if self.is_finish() || self.content[self.current] != ',' {
            return Err(cfi_error("expected ',' at :", self.current()));
        }
        self.current = self.current + 1;
        let end = match self.parse_range_item() {
            Ok(v) => v,
            Err(e) => {
                return Err(e);
            },
        };
        Ok(Range { start, end })
    }

    /// Scans a whole CFI from the cursor on.
    pub fn parse(&mut self) -> (r: Result<Epubcfi, EpubError>)
        requires
            old(self).pos() <= old(self).content_view().len(),
        ensures
            match r {
                Ok(cfi) => spec_parse_cfi(
                    old(self).content_view(),
                    old(self).pos(),
                    Seq::empty(),
                    Seq::empty(),
                ) == Ok::<CfiV, ErrV>(cfi@),
                Err(e) => spec_parse_cfi(
                    old(self).content_view(),
                    old(self).pos(),
                    Seq::empty(),
                    Seq::empty(),
                ) == Err::<CfiV, ErrV>(e@),
            },
    {
        let ghost s = self.content_view();
        let ghost i0 = self.pos();
        let mut steps: Vec<Step> = Vec::new();
        let mut paths: Vec<Path> = Vec::new();
        proof {
            assert(steps@.map_values(|x: Step| x@) =~= Seq::<StepV>::empty());
            assert(paths@.map_values(|p: Path| p@) =~= Seq::<Seq<StepV>>::empty());
        }
        let n = self.content.len();
        while self.current < n
            invariant
                self.content_view() == s,
                s == old(self).content_view(),
                i0 == old(self).pos(),
                n == s.len(),
                self.pos() <= s.len(),
                spec_parse_cfi(s, i0, Seq::empty(), Seq::empty()) == spec_parse_cfi(
                    s,
                    self.pos(),
                    steps@.map_values(|x: Step| x@),
                    paths@.map_values(|p: Path| p@),
                ),
            decreases s.len() - self.pos(),
    {
            let ghost stepsv = steps@.map_values(|x: Step| x@);
            let ghost pathsv = paths@.map_values(|p: Path| p@);
            let p = self.current;
            let c = self.content[p];
            self.current = p + 1;
            proof {
                assert(c == s[p as int]);
            }
            if c == '/' {
                proof {
                    lemma_step_bounds(s, p + 1);
                }
                match self.parse_path_item() {
                    Ok(st) => {
                        steps.push(st);
                        proof {
                            assert(steps@.map_values(|x: Step| x@) =~= stepsv.push(
                                steps@.last()@,
                            ));
                            assert(spec_parse_cfi(s, p as int, stepsv, pathsv)
                                == spec_parse_cfi(s, self.pos(), stepsv.push(steps@.last()@), pathsv));
                        }
                    },
                    Err(e) => {
                        proof {
                            assert(spec_parse_cfi(s, p as int, stepsv, pathsv) == Err::<CfiV, ErrV>(e@));
                        }
                        return Err(e);
                    },
                }
            } else if c == '!' {
                if steps.len() > 0 {
                    paths.push(Path { steps });
                    steps = Vec::new();
                    proof {
                        assert(paths@.map_values(|p: Path| p@) =~= pathsv.push(
                            paths@.last()@,
                        ));
                        assert(paths@.last()@ == stepsv);
                        assert(steps@.map_values(|x: Step| x@) =~= Seq::<StepV>::empty());
                        assert(spec_parse_cfi(s, p as int, stepsv, pathsv)
                            == spec_parse_cfi(s, p + 1, Seq::<StepV>::empty(), pathsv.push(stepsv)));
                    }
                } else {
                    proof {
                        assert(spec_parse_cfi(s, p as int, stepsv, pathsv)
                            == spec_parse_cfi(s, p + 1, stepsv, pathsv));
                    }
                }
            } else if c == ',' || c == ':' || c == '~' || c == '@' {
                match self.parse_range() {
                    Ok(rg) => {
                        proof {
                            assert(spec_parse_cfi(s, p as int, stepsv, pathsv)
                                == Ok::<CfiV, ErrV>(CfiV { paths: pathsv, range: Some(rg@) }));
                        }
                        return Ok(Epubcfi { paths, range: Some(rg) });
                    },
                    Err(e) => {
                        proof {
                            assert(spec_parse_cfi(s, p as int, stepsv, pathsv) == Err::<CfiV, ErrV>(e@));
                        }
                        return Err(e);
                    },
                }
            } else {
                return Err(cfi_error("unexpected character at :", p));
            }
        }
        Ok(Epubcfi { paths, range: None })
    }
}

impl Epubcfi {
    /// Parses a CFI string: strict, with every failure carrying the cursor
    /// position.
    pub fn try_new(target: &str) -> (r: Result<Epubcfi, EpubError>)
        ensures
            match r {
                Ok(c) => spec_cfi(target@) == Ok::<CfiV, ErrV>(c@),
                Err(e) => spec_cfi(target@) == Err::<CfiV, ErrV>(e@),
            },
    {
        let chars = crate::text::chars_vec(target);
        let mut parser = EpubCfiParser::new(chars.as_slice());
        parser.parse()
    }

    /// The first path: the spine-level step sequence.
    pub fn chapter(&self) -> (r: Option<&Path>)
        ensures
            match r {
                Some(p) => self@.paths.len() > 0 && p@ == self@.paths[0],
                None => self@.paths.len() == 0,
            },
    {
        if self.paths.len() > 0 {
            proof {
                assert(self@.paths[0] == self.paths@[0]@);
            }
            Some(&self.paths[0])
        } else {
            None
        }
    }

    /// The trailing range clause, where one was present.
    pub fn range(&self) -> (r: Option<&Range>)
        ensures
            match r {
                Some(rg) => self@.range == Some(rg@),
                None => self@.range is None,
            },
    {
        match &self.range {
            Some(rg) => Some(rg),
            None => None,
        }
    }
}

} // verus!
