use vstd::prelude::*;

use crate::config::{no_switches, ArgSwitch};
use crate::render::{
    caret_of, decimal, is_control, is_numbered, is_squeezed, number_prefix, scan, step_output,
    step_state, transform, ScanModel, NEWLINE, TAB,
};

verus! {

/// No three newlines in a row.
pub open spec fn no_triple_newline(s: Seq<char>) -> bool {
    forall|i: int|
        #![trigger s[i]]
        0 <= i && i + 2 < s.len() ==> !(s[i] == '\n' && s[i + 1] == '\n' && s[i + 2] == '\n')
}

/// Every newline has a `$` just before it.
pub open spec fn dollar_before_each_newline(s: Seq<char>) -> bool {
    forall|i: int| #![trigger s[i]] 0 <= i < s.len() && s[i] == '\n' ==> i > 0 && s[i - 1] == '$'
}

/// How many newline bytes `bytes` holds.
pub open spec fn newline_count(bytes: Seq<u8>) -> nat
    decreases bytes.len(),
{
    if bytes.len() == 0 {
        0
    } else {
        newline_count(bytes.drop_last()) + if bytes.last() == NEWLINE { 1nat } else { 0nat }
    }
}

/// The next byte starts a line: nothing came yet, or a newline came last.
pub open spec fn at_line_start(bytes: Seq<u8>) -> bool {
    bytes.len() == 0 || bytes.last() == NEWLINE
}

/// Only `number` set.
pub open spec fn number_only() -> ArgSwitch {
    ArgSwitch { number: true, ..no_switches() }
}

/// One more byte extends the scan by one step.
pub proof fn lemma_scan_push(cfg: ArgSwitch, bytes: Seq<u8>, c: u8)
    ensures
        scan(cfg, bytes.push(c)) == (
            step_state(cfg, scan(cfg, bytes).0, c),
            scan(cfg, bytes).1 + step_output(cfg, scan(cfg, bytes).0, c),
        ),
{
    assert(bytes.push(c).drop_last() =~= bytes);
}

/// Line numbers are written with ASCII digits only.
pub proof fn lemma_decimal_digits(n: nat)
    ensures
        forall|i: int| 0 <= i < decimal(n).len() ==> '0' <= #[trigger] decimal(n)[i] <= '9',
    decreases n,
{
    if n >= 10 {
        lemma_decimal_digits(n / 10);
        let d = ((n % 10) + 48) as u8;
        assert(48 <= d <= 57);
        assert('0' <= (d as char) <= '9');
        let prev = decimal(n / 10);
        assert(decimal(n) == prev.push(d as char));
        assert forall|i: int| 0 <= i < decimal(n).len() implies '0' <= #[trigger] decimal(n)[i] <= '9' by {
            if i < prev.len() {
                assert(decimal(n)[i] == prev[i]);
            }
        }
    } else {
        let d = (n + 48) as u8;
        assert(48 <= d <= 57);
        assert('0' <= (d as char) <= '9');
        assert(decimal(n) == seq![d as char]);
    }
}

/// A line-number prefix holds only spaces and digits.
pub proof fn lemma_prefix_chars(n: nat)
    ensures
        forall|i: int|
            0 <= i < number_prefix(n).len() ==> #[trigger] number_prefix(n)[i] == ' ' || (
            '0' <= number_prefix(n)[i] <= '9'),
{
    lemma_decimal_digits(n);
}

/// With no option set, each byte comes out as the character of the same code.
pub proof fn lemma_plain_is_identity(bytes: Seq<u8>)
    ensures
        transform(bytes, no_switches()) == bytes.map_values(|c: u8| c as char),
    decreases bytes.len(),
{
    if bytes.len() > 0 {
        let init = bytes.drop_last();
        lemma_plain_is_identity(init);
        lemma_scan_push(no_switches(), init, bytes.last());
        assert(init.push(bytes.last()) =~= bytes);
        assert(bytes.map_values(|c: u8| c as char) =~= init.map_values(|c: u8| c as char).push(
            bytes.last() as char,
        ));
    }
}

spec fn squeeze_inv(out: Seq<char>, st: ScanModel) -> bool {
    &&& no_triple_newline(out)
    &&& (out.len() > 0 && out.last() == '\n' ==> st.prev == NEWLINE)
    &&& (out.len() > 1 && out.last() == '\n' && out[out.len() - 2] == '\n' ==> st.prev_prev
        == NEWLINE)
}

proof fn lemma_no_triple_append(out: Seq<char>, app: Seq<char>)
    requires
        no_triple_newline(out),
        forall|i: int| 0 <= i < app.len() - 1 ==> #[trigger] app[i] != '\n',
        app.len() == 1 && app[0] == '\n' && out.len() > 1 ==> !(out.last() == '\n' && out[out.len()
            - 2] == '\n'),
    ensures
        no_triple_newline(out + app),
{
    let s = out + app;
    assert forall|i: int|
        #![trigger s[i]]
        0 <= i && i + 2 < s.len() implies !(s[i] == '\n' && s[i + 1] == '\n' && s[i + 2] == '\n') by {
        if i + 2 < out.len() {
            assert(out[i] == s[i]);
        } else if i + 1 < out.len() {
            if app.len() > 1 {
                assert(app[0] != '\n');
            }
        } else if i < out.len() {
            assert(app[0] != '\n');
        } else {
            assert(app[i - out.len()] != '\n');
        }
    }
}

proof fn lemma_squeeze_step(cfg: ArgSwitch, out: Seq<char>, st: ScanModel, c: u8)
    requires
        cfg.squeeze_blank,
        squeeze_inv(out, st),
    ensures
        squeeze_inv(out + step_output(cfg, st, c), step_state(cfg, st, c)),
{
    let app = step_output(cfg, st, c);
    let s = out + app;
    if cfg.show_nonprinting && is_control(c) {
        assert(caret_of(c) != '\n');
        lemma_no_triple_append(out, app);
    } else if cfg.show_tabs && c == TAB {
        lemma_no_triple_append(out, app);
    } else if is_squeezed(cfg, st, c) {
        assert(s =~= out);
    } else {
        let pre = if is_numbered(cfg, st, c) { number_prefix(st.line) } else { Seq::empty() };
        let dol = if cfg.show_ends && c == NEWLINE { seq!['$'] } else { Seq::<char>::empty() };
        lemma_prefix_chars(st.line);
        assert(app == pre + dol + seq![c as char]);
        assert(forall|i: int| 0 <= i < pre.len() ==> #[trigger] pre[i] != '\n');
        assert((c as char == '\n') == (c == NEWLINE));
        assert forall|i: int| 0 <= i < app.len() - 1 implies #[trigger] app[i] != '\n' by {
            if i < pre.len() {
                assert(app[i] == pre[i]);
            } else {
                assert(app[i] == dol[i - pre.len()]);
            }
        }
        if app.len() > 1 {
            assert(app[app.len() - 2] != '\n');
        }
        lemma_no_triple_append(out, app);
        assert(s.last() == c as char);
        if s.len() > 1 && app.len() == 1 {
            assert(s[s.len() - 2] == out.last());
        }
    }
}

proof fn lemma_squeeze_scan(cfg: ArgSwitch, bytes: Seq<u8>)
    requires
        cfg.squeeze_blank,
    ensures
        squeeze_inv(scan(cfg, bytes).1, scan(cfg, bytes).0),
    decreases bytes.len(),
{
    if bytes.len() > 0 {
        lemma_squeeze_scan(cfg, bytes.drop_last());
        let (st, out) = scan(cfg, bytes.drop_last());
        lemma_squeeze_step(cfg, out, st, bytes.last());
    }
}

/// With `squeeze_blank`, the output never holds three newlines in a row.
pub proof fn lemma_squeeze_no_triple_newline(bytes: Seq<u8>, cfg: ArgSwitch)
    requires
        cfg.squeeze_blank,
    ensures
        no_triple_newline(transform(bytes, cfg)),
{
    lemma_squeeze_scan(cfg, bytes);
}

/// `number_nonblank` set, the scan is the same whether `number` is set or not.
pub proof fn lemma_nonblank_overrides_number(bytes: Seq<u8>, cfg: ArgSwitch)
    requires
        cfg.number_nonblank,
    ensures
        transform(bytes, cfg) == transform(bytes, ArgSwitch { number: false, ..cfg }),
        scan(cfg, bytes) == scan(ArgSwitch { number: false, ..cfg }, bytes),
    decreases bytes.len(),
{
    if bytes.len() > 0 {
        lemma_nonblank_overrides_number(bytes.drop_last(), cfg);
    }
}

/// Under `number_nonblank` (and no newline-changing option), a newline is
/// never given a number: a blank line stays bare.
pub proof fn lemma_nonblank_skips_blank_lines(bytes: Seq<u8>, cfg: ArgSwitch)
    requires
        cfg.number_nonblank,
        !cfg.show_nonprinting,
        !cfg.show_ends,
        !cfg.squeeze_blank,
    ensures
        transform(bytes.push(NEWLINE), cfg) == transform(bytes, cfg).push('\n'),
{
    lemma_scan_push(cfg, bytes, NEWLINE);
    assert(step_output(cfg, scan(cfg, bytes).0, NEWLINE) =~= seq!['\n']);
}

proof fn lemma_number_only_state(bytes: Seq<u8>)
    ensures
        scan(number_only(), bytes).0.line == newline_count(bytes) + if at_line_start(bytes) {
            1nat
        } else {
            2nat
        },
        scan(number_only(), bytes).0.prev == if bytes.len() == 0 { NEWLINE } else { bytes.last() },
    decreases bytes.len(),
{
    if bytes.len() > 0 {
        lemma_number_only_state(bytes.drop_last());
    }
}

/// With only `number` set, every byte that starts a line, a newline included,
/// is preceded by the number of that line; no other byte gets one.
pub proof fn lemma_number_every_line(bytes: Seq<u8>, c: u8)
    ensures
        transform(bytes.push(c), number_only()) == transform(bytes, number_only()) + (if at_line_start(
            bytes,
        ) {
            number_prefix(newline_count(bytes) + 1)
        } else {
            Seq::empty()
        }) + seq![c as char],
{
    lemma_number_only_state(bytes);
    lemma_scan_push(number_only(), bytes, c);
}

proof fn lemma_dollar_append(out: Seq<char>, app: Seq<char>)
    requires
        dollar_before_each_newline(out),
        forall|i: int|
            0 <= i < app.len() && #[trigger] app[i] == '\n' ==> i > 0 && app[i - 1] == '$',
    ensures
        dollar_before_each_newline(out + app),
{
    let s = out + app;
    assert forall|i: int| #![trigger s[i]] 0 <= i < s.len() && s[i] == '\n' implies i > 0 && s[i
        - 1] == '$' by {
        if i < out.len() {
            assert(out[i] == s[i]);
        } else {
            assert(app[i - out.len()] == s[i]);
        }
    }
}

/// With `show_ends`, every newline of the output has a `$` just before it.
pub proof fn lemma_ends_marked(bytes: Seq<u8>, cfg: ArgSwitch)
    requires
        cfg.show_ends,
    ensures
        dollar_before_each_newline(transform(bytes, cfg)),
    decreases bytes.len(),
{
    if bytes.len() > 0 {
        let init = bytes.drop_last();
        let c = bytes.last();
        lemma_ends_marked(init, cfg);
        let (st, out) = scan(cfg, init);
        let app = step_output(cfg, st, c);
        if is_control(c) {
            assert(caret_of(c) != '\n');
        }
        assert((c as char == '\n') == (c == NEWLINE));
        lemma_prefix_chars(st.line);
        assert forall|i: int| 0 <= i < app.len() && #[trigger] app[i] == '\n' implies i > 0 && app[i
            - 1] == '$' by {
            if !(cfg.show_nonprinting && is_control(c)) && !(cfg.show_tabs && c == TAB) {
                let pre = if is_numbered(cfg, st, c) { number_prefix(st.line) } else { Seq::empty() };
                if i < pre.len() {
                    assert(app[i] == pre[i]);
                }
            }
        }
        lemma_dollar_append(out, app);
    }
}

/// Without `show_ends`, no `$` appears unless the input holds one.
pub proof fn lemma_no_ends_no_dollar(bytes: Seq<u8>, cfg: ArgSwitch)
    requires
        !cfg.show_ends,
        !bytes.contains(36u8),
    ensures
        !transform(bytes, cfg).contains('$'),
    decreases bytes.len(),
{
    if bytes.len() > 0 {
        let init = bytes.drop_last();
        let c = bytes.last();
        assert(!init.contains(36u8)) by {
            if init.contains(36u8) {
                let k = choose|k: int| 0 <= k < init.len() && init[k] == 36u8;
                assert(bytes[k] == 36u8);
            }
        }
        assert(c != 36u8) by {
            assert(bytes[bytes.len() - 1] == c);
        }
        lemma_no_ends_no_dollar(init, cfg);
        let (st, out) = scan(cfg, init);
        let app = step_output(cfg, st, c);
        if is_control(c) {
            assert(caret_of(c) != '$');
        }
        assert(c as char != '$');
        lemma_prefix_chars(st.line);
        let s = out + app;
        assert forall|i: int| 0 <= i < s.len() implies #[trigger] s[i] != '$' by {
            if i < out.len() {
                assert(s[i] == out[i]);
            } else if !(cfg.show_nonprinting && is_control(c)) && !(cfg.show_tabs && c == TAB) {
                let pre = if is_numbered(cfg, st, c) { number_prefix(st.line) } else { Seq::empty() };
                let j = i - out.len();
                if j < pre.len() {
                    assert(app[j] == pre[j]);
                }
            }
        }
    }
}

/// With `show_tabs`, a tab byte comes out as `^I`.
pub proof fn lemma_tab_shown(bytes: Seq<u8>, cfg: ArgSwitch)
    requires
        cfg.show_tabs,
    ensures
        transform(bytes.push(TAB), cfg) == transform(bytes, cfg) + seq!['^', 'I'],
{
    lemma_scan_push(cfg, bytes, TAB);
    assert(caret_of(TAB) == 'I');
}

/// Without `show_tabs` and `show_nonprinting`, a tab byte comes out as a bare
/// tab, after a line number at most.
pub proof fn lemma_tab_bare(bytes: Seq<u8>, cfg: ArgSwitch)
    requires
        !cfg.show_tabs,
        !cfg.show_nonprinting,
    ensures
        exists|p: Seq<char>|
            transform(bytes.push(TAB), cfg) == transform(bytes, cfg) + p + seq!['\t'] && !p.contains(
                '\t',
            ),
{
    lemma_scan_push(cfg, bytes, TAB);
    let st = scan(cfg, bytes).0;
    let p = if is_numbered(cfg, st, TAB) { number_prefix(st.line) } else { Seq::empty() };
    lemma_prefix_chars(st.line);
    assert(TAB as char == '\t');
    assert(step_output(cfg, st, TAB) =~= p + seq!['\t']);
    assert(transform(bytes.push(TAB), cfg) =~= transform(bytes, cfg) + p + seq!['\t']);
    assert(!p.contains('\t')) by {
        if p.contains('\t') {
            let k = choose|k: int| 0 <= k < p.len() && p[k] == '\t';
            assert(p[k] == ' ' || ('0' <= p[k] <= '9'));
        }
    }
}

/// With `show_nonprinting`, a control byte comes out as `^` and its symbol.
pub proof fn lemma_control_shown(bytes: Seq<u8>, cfg: ArgSwitch, c: u8)
    requires
        cfg.show_nonprinting,
        is_control(c),
    ensures
        transform(bytes.push(c), cfg) == transform(bytes, cfg) + seq!['^', caret_of(c)],
{
    lemma_scan_push(cfg, bytes, c);
}

} // verus!
