use vstd::prelude::*;

use crate::config::ArgSwitch;

verus! {

pub const NEWLINE: u8 = 10;

pub const TAB: u8 = 9;

/// Codes 0..31 and 127.
pub open spec fn is_control(c: u8) -> bool {
    c <= 31 || c == 127
}

/// The symbol that follows `^` when a control byte is shown in caret
/// notation: `@` for 0, `A`..`Z` for 1..26, `[ \ ] ^ _` for 27..31 and
/// `?` for 127.
pub open spec fn caret_of(c: u8) -> char {
    if c == 127 {
        '?'
    } else {
        ((c + 64) as u8) as char
    }
}

/// The decimal digits of `n`, most significant first, without leading zeros.
pub open spec fn decimal(n: nat) -> Seq<char>
    decreases n,
{
    if n < 10 {
        seq![((n + 48) as u8) as char]
    } else {
        decimal(n / 10).push((((n % 10) + 48) as u8) as char)
    }
}

/// The text put before a numbered line: the number right-justified in six
/// columns (no padding once it has six digits or more), then two spaces.
pub open spec fn number_prefix(n: nat) -> Seq<char> {
    let d = decimal(n);
    let pad: nat = if d.len() < 6 { (6 - d.len()) as nat } else { 0 };
    Seq::new(pad, |i: int| ' ') + d + seq![' ', ' ']
}

/// What the scan remembers between bytes: the next line number and the two
/// bytes last taken into account.
pub ghost struct ScanModel {
    pub line: nat,
    pub prev: u8,
    pub prev_prev: u8,
}

/// The start of input reads as the start of a fresh line.
pub open spec fn scan_start() -> ScanModel {
    ScanModel { line: 1, prev: NEWLINE, prev_prev: 0 }
}

/// The byte is rendered by caret or tab notation and leaves the state alone.
pub open spec fn is_escaped(cfg: ArgSwitch, c: u8) -> bool {
    (cfg.show_nonprinting && is_control(c)) || (cfg.show_tabs && c == TAB)
}

/// A newline after two newlines is dropped under `squeeze_blank`.
pub open spec fn is_squeezed(cfg: ArgSwitch, st: ScanModel, c: u8) -> bool {
    cfg.squeeze_blank && c == NEWLINE && st.prev == NEWLINE && st.prev_prev == NEWLINE
}

/// The byte opens a line that gets a number.
pub open spec fn is_numbered(cfg: ArgSwitch, st: ScanModel, c: u8) -> bool {
    st.prev == NEWLINE && if cfg.number_nonblank {
        c != NEWLINE
    } else {
        cfg.number
    }
}

/// What one byte adds to the output.
pub open spec fn step_output(cfg: ArgSwitch, st: ScanModel, c: u8) -> Seq<char> {
    if cfg.show_nonprinting && is_control(c) {
        seq!['^', caret_of(c)]
    } else if cfg.show_tabs && c == TAB {
        seq!['^', 'I']
    } else if is_squeezed(cfg, st, c) {
        Seq::empty()
    } else {
        (if is_numbered(cfg, st, c) { number_prefix(st.line) } else { Seq::empty() }) + (if cfg.show_ends
            && c == NEWLINE { seq!['$'] } else { Seq::empty() }) + seq![c as char]
    }
}

/// The state after one byte.
pub open spec fn step_state(cfg: ArgSwitch, st: ScanModel, c: u8) -> ScanModel {
    if is_escaped(cfg, c) {
        st
    } else if is_squeezed(cfg, st, c) {
        ScanModel { line: st.line, prev: c, prev_prev: st.prev }
    } else {
        ScanModel {
            line: if is_numbered(cfg, st, c) { st.line + 1 } else { st.line },
            prev: c,
            prev_prev: st.prev,
        }
    }
}

/// The state and the output after a left-to-right scan of `bytes`.
pub open spec fn scan(cfg: ArgSwitch, bytes: Seq<u8>) -> (ScanModel, Seq<char>)
    decreases bytes.len(),
{
    if bytes.len() == 0 {
        (scan_start(), Seq::empty())
    } else {
        let (st, out) = scan(cfg, bytes.drop_last());
        (step_state(cfg, st, bytes.last()), out + step_output(cfg, st, bytes.last()))
    }
}

/// The text that `bytes` is rendered to under `cfg`.
pub open spec fn transform(bytes: Seq<u8>, cfg: ArgSwitch) -> Seq<char> {
    scan(cfg, bytes).1
}

/// Relies on std's `String::push`: the character is appended at the end.
#[verifier::external_body]
fn push_char(s: &mut String, c: char)
    ensures
        final(s)@ == old(s)@.push(c),
{
    s.push(c)
}

/// The symbol shown after `^` for a control byte.
pub fn caret_symbol(c: u8) -> (r: char)
    requires
        is_control(c),
    ensures
        r == caret_of(c),
{
    if c == 127 {
        '?'
    } else {
        (c + 64) as char
    }
}

fn push_decimal(out: &mut String, n: usize)
    ensures
        final(out)@ == old(out)@ + decimal(n as nat),
    decreases n,
{
    if n >= 10 {
        push_decimal(out, n / 10);
    }
    push_char(out, ((n % 10) as u8 + 48) as char);
    assert(final(out)@ =~= old(out)@ + decimal(n as nat));
}

/// The prefix of line `n`: its number right-justified in six columns, then
/// two spaces.
pub fn line_number_prefix(n: usize) -> (r: String)
    ensures
        r@ == number_prefix(n as nat),
{
    let mut digits = String::new();
    push_decimal(&mut digits, n);
    let len = digits.as_str().unicode_len();
    let pad: usize = if len < 6 { 6 - len } else { 0 };
    let mut r = String::new();
    let mut k: usize = 0;
    while k < pad
        invariant
            k <= pad,
            r@ == Seq::new(k as nat, |i: int| ' '),
        decreases pad - k,
    {
        push_char(&mut r, ' ');
        k = k + 1;
        assert(r@ =~= Seq::new(k as nat, |i: int| ' '));
    }
    r.append(digits.as_str());
    r.append("  ");
    proof {
        reveal_strlit("  ");
    }
    assert(r@ =~= number_prefix(n as nat));
    r
}

/// The scan state of one source: the number the next numbered line gets,
/// and the last two bytes that went through the line logic.
#[derive(Clone, Copy, Debug, PartialEq, Eq, Structural)]
pub struct ScanState {
    pub line_number: usize,
    pub prev_char: u8,
    pub prev_prev_char: u8,
}

impl View for ScanState {
    type V = ScanModel;

    open spec fn view(&self) -> ScanModel {
        ScanModel {
            line: self.line_number as nat,
            prev: self.prev_char,
            prev_prev: self.prev_prev_char,
        }
    }
}

impl ScanState {
    /// A fresh scan: line 1, as if just after a newline.
    pub fn new() -> (r: Self)
        ensures
            r@ == scan_start(),
    {
        ScanState { line_number: 1, prev_char: NEWLINE, prev_prev_char: 0 }
    }

    /// Renders one byte onto `out` and advances the state.
    pub fn step(&mut self, cfg: &ArgSwitch, c: u8, out: &mut String)
        requires
            old(self).line_number < usize::MAX,
        ensures
            final(self)@ == step_state(*cfg, old(self)@, c),
            final(out)@ == old(out)@ + step_output(*cfg, old(self)@, c),
    {
        if cfg.show_nonprinting && (c <= 31 || c == 127) {
            push_char(out, '^');
            push_char(out, caret_symbol(c));
            assert(final(out)@ =~= old(out)@ + step_output(*cfg, old(self)@, c));
            return;
        }
        if cfg.show_tabs && c == TAB {
            push_char(out, '^');
            push_char(out, 'I');
            assert(final(out)@ =~= old(out)@ + step_output(*cfg, old(self)@, c));
            return;
        }
        if cfg.squeeze_blank && c == NEWLINE && self.prev_char == NEWLINE
            && self.prev_prev_char == NEWLINE {
            self.prev_prev_char = self.prev_char;
            self.prev_char = c;
            assert(final(out)@ =~= old(out)@ + step_output(*cfg, old(self)@, c));
            return;
        }
        let numbered = self.prev_char == NEWLINE && if cfg.number_nonblank {
            c != NEWLINE
        } else {
            cfg.number
        };
        if numbered {
            let prefix = line_number_prefix(self.line_number);
            out.append(prefix.as_str());
            self.line_number = self.line_number + 1;
        }
        if cfg.show_ends && c == NEWLINE {
            push_char(out, '$');
        }
        push_char(out, c as char);
        self.prev_prev_char = self.prev_char;
        self.prev_char = c;
        assert(final(out)@ =~= old(out)@ + step_output(*cfg, old(self)@, c));
    }
}

/// The line number never runs ahead of the bytes scanned.
proof fn lemma_scan_line_bound(cfg: ArgSwitch, bytes: Seq<u8>)
    ensures
        scan(cfg, bytes).0.line <= bytes.len() + 1,
    decreases bytes.len(),
{
    if bytes.len() > 0 {
        lemma_scan_line_bound(cfg, bytes.drop_last());
    }
}

/// Renders the bytes of one source under `arg_switch`, with a fresh scan.
pub fn get_content(content: &[u8], arg_switch: &ArgSwitch) -> (r: String)
    requires
        content@.len() < usize::MAX,
    ensures
        r@ == transform(content@, *arg_switch),
{
    let mut result = String::new();
    let mut state = ScanState::new();
    let mut i: usize = 0;
    while i < content.len()
        invariant
            i <= content@.len() < usize::MAX,
            (state@, result@) == scan(*arg_switch, content@.subrange(0, i as int)),
        decreases content@.len() - i,
    {
        proof {
            lemma_scan_line_bound(*arg_switch, content@.subrange(0, i as int));
            let next = content@.subrange(0, i as int + 1);
            assert(next.drop_last() =~= content@.subrange(0, i as int));
        }
        state.step(arg_switch, content[i], &mut result);
        i = i + 1;
    }
    assert(content@.subrange(0, i as int) =~= content@);
    result
}

} // verus!
