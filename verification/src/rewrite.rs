//! Rewriting of coin addresses in proxied chat lines.
//!
//! A coin address is a maximal run of ASCII alphanumeric characters that
//! starts with `7`, is 26 to 35 characters long in all, stands right after
//! the start of the text or a non-word character (a word character being an
//! ASCII alphanumeric or `_`), and is not followed by `_` or `-`. Every such
//! run is replaced by one fixed payout address; product identifiers glued to
//! `_` or `-`, and runs of the wrong length, are left alone.

use vstd::prelude::*;

verus! {

/// An ASCII alphanumeric character, the alphabet addresses are made of.
pub open spec fn addr_char(c: char) -> bool {
    (48 <= c as int <= 57) || (65 <= c as int <= 90) || (97 <= c as int <= 122)
}

/// A word character: ASCII alphanumeric or underscore.
pub open spec fn word_char(c: char) -> bool {
    addr_char(c) || c == '_'
}

/// Whether a finished run is a coin address, given that it stood at a word
/// boundary and what follows it allows a match.
pub open spec fn is_coin_run(run: Seq<char>, boundary: bool, sep_ok: bool) -> bool {
    &&& 26 <= run.len() <= 35
    &&& run.len() > 0 && run[0] == '7'
    &&& boundary
    &&& sep_ok
}

/// What a finished run contributes to the output: the replacement address
/// when it matches, itself otherwise.
pub open spec fn resolve(run: Seq<char>, boundary: bool, sep_ok: bool) -> Seq<char> {
    if is_coin_run(run, boundary, sep_ok) {
        "7YWHMfk9JZe0LM0g1ZauHuiSxhI"@
    } else {
        run
    }
}

/// The scanner's state: the output so far, the alphanumeric run being read,
/// whether that run began at a word boundary, and whether the last consumed
/// character was a word character.
pub struct ScanState {
    pub out: Seq<char>,
    pub run: Seq<char>,
    pub boundary: bool,
    pub prev_word: bool,
}

/// One scanner step: an alphanumeric character extends (or opens) the run;
/// anything else settles the run and is copied through.
pub open spec fn scan_step(st: ScanState, c: char) -> ScanState {
    if addr_char(c) {
        if st.run.len() == 0 {
            ScanState { out: st.out, run: seq![c], boundary: !st.prev_word, prev_word: true }
        } else {
            ScanState { out: st.out, run: st.run.push(c), boundary: st.boundary, prev_word: true }
        }
    } else {
        ScanState {
            out: st.out + resolve(st.run, st.boundary, c != '_' && c != '-') + seq![c],
            run: Seq::empty(),
            boundary: false,
            prev_word: word_char(c),
        }
    }
}

/// The scanner's state after the first `i` characters.
pub open spec fn scan(s: Seq<char>, i: int) -> ScanState
    decreases i,
{
    if i <= 0 {
        ScanState { out: Seq::empty(), run: Seq::empty(), boundary: false, prev_word: false }
    } else {
        scan_step(scan(s, i - 1), s[i - 1])
    }
}

/// The whole text with every coin address replaced: the scan of all of it,
/// with the trailing run settled against the end of the text.
pub open spec fn spec_rewrite(s: Seq<char>) -> Seq<char> {
    let st = scan(s, s.len() as int);
    st.out + resolve(st.run, st.boundary, true)
}

/// Whether the character extends an address run.
fn is_addr_char(c: char) -> (r: bool)
    ensures
        r == addr_char(c),
{
    let u = c as u32;
    (48 <= u && u <= 57) || (65 <= u && u <= 90) || (97 <= u && u <= 122)
}

/// Replaces every coin address in the message with the payout address.
pub fn replace_coin_addrs(message: String) -> (r: String)
    ensures
        r@ == spec_rewrite(message@),
{
    let s = message.as_str();
    let n = s.unicode_len();
    let mut out = String::new();
    let mut run_start: usize = 0;
    let mut boundary = false;
    let mut prev_word = false;
    let mut i: usize = 0;
    proof {
        assert(message@.subrange(0, 0) =~= Seq::<char>::empty());
    }
    while i < n
        invariant
            n == message@.len(),
            s@ == message@,
            0 <= run_start <= i <= n,
            ({
                let st = scan(message@, i as int);
                &&& st.out == out@
                &&& st.run == message@.subrange(run_start as int, i as int)
                &&& st.boundary == boundary
                &&& st.prev_word == prev_word
            }),
        decreases n - i,
    {
        let ghost st = scan(message@, i as int);
        proof {
            assert(scan(message@, i as int + 1) == scan_step(st, message@[i as int]));
        }
        let c = s.get_char(i);
        if is_addr_char(c) {
            if run_start == i {
                boundary = !prev_word;
            }
            prev_word = true;
            proof {
                if st.run.len() == 0 {
                    assert(message@.subrange(run_start as int, i as int + 1) =~= seq![c]);
                } else {
                    assert(message@.subrange(run_start as int, i as int + 1) =~= st.run.push(c));
                }
            }
        } else {
            let run_len = i - run_start;
            let sep_ok = c != '_' && c != '-';
            let matched = 26 <= run_len && run_len <= 35 && sep_ok && boundary
                && s.get_char(run_start) == '7';
            if matched {
                out.append("7YWHMfk9JZe0LM0g1ZauHuiSxhI");
            } else if run_len > 0 {
                out.append(s.substring_char(run_start, i));
            }
            out.append(s.substring_char(i, i + 1));
            proof {
                assert(message@.subrange(i as int, i as int + 1) =~= seq![c]);
                if !matched && run_len == 0 {
                    assert(out@ =~= st.out + resolve(st.run, st.boundary, sep_ok) + seq![c]);
                }
            }
            run_start = i + 1;
            boundary = false;
            prev_word = if c == '_' { true } else { false };
            proof {
                assert(message@.subrange(run_start as int, i as int + 1)
                    =~= Seq::<char>::empty());
            }
        }
        i = i + 1;
    }
    let run_len = n - run_start;
    let matched = 26 <= run_len && run_len <= 35 && boundary && s.get_char(run_start) == '7';
    if matched {
        out.append("7YWHMfk9JZe0LM0g1ZauHuiSxhI");
    } else if run_len > 0 {
        out.append(s.substring_char(run_start, n));
    } else {
        proof {
            let st = scan(message@, n as int);
            assert(out@ =~= st.out + resolve(st.run, st.boundary, true));
        }
    }
    out
}

} // verus!
