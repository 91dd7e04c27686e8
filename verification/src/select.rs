//! Selection logic: interpreting one line of user input against the
//! candidate list, advancing the interactive session, and the batch-mode
//! choice of the newest candidate.

use vstd::prelude::*;
use crate::Candidate;
use crate::render::dec_str;
use crate::render::u64_to_string;

verus! {

/// The whitespace stripped from the ends of an input line.
pub open spec fn is_space(c: char) -> bool {
    c == ' ' || c == '\t' || c == '\n' || c == '\r'
}

/// `s` with leading and trailing whitespace removed.
pub open spec fn trimmed(s: Seq<char>) -> Seq<char>
    decreases s.len(),
{
    if s.len() == 0 {
        s
    } else if is_space(s[0]) {
        trimmed(s.drop_first())
    } else if is_space(s[s.len() - 1]) {
        trimmed(s.drop_last())
    } else {
        s
    }
}

proof fn lemma_trimmed_all_spaces(s: Seq<char>)
    requires
        forall|k: int| 0 <= k < s.len() ==> is_space(#[trigger] s[k]),
    ensures
        trimmed(s) == Seq::<char>::empty(),
    decreases s.len(),
{
    if s.len() > 0 {
        let t = s.drop_first();
        assert(forall|k: int| 0 <= k < t.len() ==> is_space(#[trigger] t[k]));
        lemma_trimmed_all_spaces(t);
    } else {
        assert(s =~= Seq::<char>::empty());
    }
}

proof fn lemma_trimmed_is_subrange(s: Seq<char>, lo: int, hi: int)
    requires
        0 <= lo < hi <= s.len(),
        forall|k: int| 0 <= k < lo ==> is_space(#[trigger] s[k]),
        forall|k: int| hi <= k < s.len() ==> is_space(#[trigger] s[k]),
        !is_space(s[lo]),
        !is_space(s[hi - 1]),
    ensures
        trimmed(s) == s.subrange(lo, hi),
    decreases s.len(),
{
    if lo > 0 {
        let t = s.drop_first();
        assert(forall|k: int| 0 <= k < t.len() ==> t[k] == s[k + 1]);
        lemma_trimmed_is_subrange(t, lo - 1, hi - 1);
        assert(t.subrange(lo - 1, hi - 1) =~= s.subrange(lo, hi));
    } else if hi < s.len() {
        let t = s.drop_last();
        assert(forall|k: int| 0 <= k < t.len() ==> t[k] == s[k]);
        lemma_trimmed_is_subrange(t, lo, hi);
        assert(t.subrange(lo, hi) =~= s.subrange(lo, hi));
    } else {
        assert(s.subrange(0, s.len() as int) =~= s);
    }
}

fn is_space_exec(c: char) -> (r: bool)
    ensures
        r == is_space(c),
{
    c == ' ' || c == '\t' || c == '\n' || c == '\r'
}

/// `s` with leading and trailing whitespace removed.
pub fn trim_input(s: &str) -> (r: String)
    ensures
        r@ == trimmed(s@),
{
    let len = s.unicode_len();
    let mut lo: usize = 0;
    while lo < len && is_space_exec(s.get_char(lo))
        invariant
            0 <= lo <= len,
            len == s@.len(),
            forall|k: int| 0 <= k < lo ==> is_space(#[trigger] s@[k]),
        decreases len - lo,
    {
        lo += 1;
    }
    if lo == len {
        proof {
            lemma_trimmed_all_spaces(s@);
        }
        return String::new();
    }
    let mut hi: usize = len;
    while hi > lo && is_space_exec(s.get_char(hi - 1))
        invariant
            lo < hi <= len,
            len == s@.len(),
            !is_space(s@[lo as int]),
            forall|k: int| hi <= k < len ==> is_space(#[trigger] s@[k]),
        decreases hi,
    {
        hi -= 1;
    }
    proof {
        lemma_trimmed_is_subrange(s@, lo as int, hi as int);
    }
    s.substring_char(lo, hi).to_owned()
}

/// A decimal digit.
pub open spec fn is_digit(c: char) -> bool {
    48 <= c as int <= 57
}

pub open spec fn digit_val(c: char) -> nat {
    if is_digit(c) {
        (c as int - 48) as nat
    } else {
        0
    }
}

/// A non-empty string of decimal digits.
pub open spec fn all_digits(s: Seq<char>) -> bool {
    s.len() > 0 && forall|i: int| 0 <= i < s.len() ==> is_digit(#[trigger] s[i])
}

/// The number a digit string denotes.
pub open spec fn dec_val(s: Seq<char>) -> nat
    decreases s.len(),
{
    if s.len() == 0 {
        0
    } else {
        dec_val(s.drop_last()) * 10 + digit_val(s.last())
    }
}

proof fn lemma_dec_val_extend(s: Seq<char>, i: int)
    requires
        0 <= i <= s.len(),
    ensures
        dec_val(s.subrange(0, i)) <= dec_val(s),
    decreases s.len() - i,
{
    if i < s.len() {
        assert(s.subrange(0, i + 1).drop_last() =~= s.subrange(0, i));
        assert(dec_val(s.subrange(0, i)) <= dec_val(s.subrange(0, i + 1)));
        lemma_dec_val_extend(s, i + 1);
    } else {
        assert(s.subrange(0, i) =~= s);
    }
}

/// The quit command: the letter q, either case, once trimmed.
pub open spec fn is_quit(s: Seq<char>) -> bool {
    s == "q"@ || s == "Q"@
}

/// A valid selection: a digit string naming an index in `[1, count]`.
pub open spec fn valid_choice(s: Seq<char>, count: nat) -> bool {
    all_digits(s) && 1 <= dec_val(s) <= count
}

/// What one line of input means against `count` candidates.
pub enum Reply {
    /// The user asked to leave without selecting.
    Quit,
    /// A valid 1-based candidate index.
    Chosen(usize),
    /// Anything else: not a number, zero, negative, or out of range.
    Invalid,
}

/// Interpret one line of input against `count` candidates: `q` or `Q`
/// (trimmed) quits, a decimal index within `[1, count]` chooses, and
/// everything else is invalid.
pub fn interpret(line: &str, count: usize) -> (r: Reply)
    ensures
        (r is Quit <==> is_quit(trimmed(line@))),
        (r is Chosen <==> valid_choice(trimmed(line@), count as nat)),
        r matches Reply::Chosen(k) ==> 1 <= k <= count && k as nat == dec_val(trimmed(line@)),
{
    let t = trim_input(line);
    let ts = t.as_str();
    let len = ts.unicode_len();
    if len == 1 {
        let c = ts.get_char(0);
        if c == 'q' || c == 'Q' {
            proof {
                reveal_strlit("q");
                reveal_strlit("Q");
                if c == 'q' {
                    assert(t@ =~= "q"@);
                } else {
                    assert(t@ =~= "Q"@);
                }
            }
            return Reply::Quit;
        }
    }
    proof {
        reveal_strlit("q");
        reveal_strlit("Q");
    }
    if len == 0 {
        return Reply::Invalid;
    }
    let mut acc: usize = 0;
    let mut i: usize = 0;
    while i < len
        invariant
            0 <= i <= len,
            len == t@.len(),
            ts@ == t@,
            len > 0,
            t@ == trimmed(line@),
            !is_quit(t@),
            count <= usize::MAX,
            forall|k: int| 0 <= k < i ==> is_digit(#[trigger] t@[k]),
            acc as nat == dec_val(t@.subrange(0, i as int)),
            acc <= count,
        decreases len - i,
    {
        let c = ts.get_char(i);
        let cv = c as u32;
        if cv < 48 || cv > 57 {
            assert(!is_digit(t@[i as int]));
            return Reply::Invalid;
        }
        let d = (cv - 48) as usize;
        proof {
            assert(t@.subrange(0, i + 1).drop_last() =~= t@.subrange(0, i as int));
            assert(t@.subrange(0, i + 1).last() == t@[i as int]);
            assert(digit_val(t@[i as int]) == d);
        }
        if acc > count / 10 {
            proof {
                assert(dec_val(t@.subrange(0, i + 1)) > count);
                lemma_dec_val_extend(t@, i + 1);
            }
            return Reply::Invalid;
        }
        let acc10 = acc * 10;
        if d > usize::MAX - acc10 {
            proof {
                assert(dec_val(t@.subrange(0, i + 1)) > count);
                lemma_dec_val_extend(t@, i + 1);
            }
            return Reply::Invalid;
        }
        acc = acc10 + d;
        if acc > count {
            proof {
                lemma_dec_val_extend(t@, i + 1);
            }
            return Reply::Invalid;
        }
        i += 1;
    }
    proof {
        assert(t@.subrange(0, len as int) =~= t@);
    }
    if acc == 0 {
        return Reply::Invalid;
    }
    Reply::Chosen(acc)
}

/// The interactive session's state: the active-agent value it will emit at
/// the end. It starts as the environment's value and changes only on a
/// valid selection.
pub struct Session {
    pub active: String,
}

/// Advance the session by one prompt round. A valid index makes that
/// candidate's path the active value; quitting or an invalid line leaves
/// the session untouched.
pub fn advance(sess: &mut Session, found: &Vec<Candidate>, line: &str) -> (r: Reply)
    requires
        found@.len() > 0,
    ensures
        (r is Quit <==> is_quit(trimmed(line@))),
        (r is Chosen <==> valid_choice(trimmed(line@), found@.len() as nat)),
        r matches Reply::Chosen(k) ==> 1 <= k <= found@.len() && k as nat == dec_val(
            trimmed(line@),
        ) && final(sess).active@ == found@[k - 1].path@,
        !(r is Chosen) ==> *final(sess) == *old(sess),
{
    let r = interpret(line, found.len());
    match r {
        Reply::Chosen(k) => {
            sess.active = found[k - 1].path.clone();
            Reply::Chosen(k)
        },
        Reply::Quit => Reply::Quit,
        Reply::Invalid => Reply::Invalid,
    }
}

/// The shell-evaluable assignment for `path`.
pub open spec fn export_text(path: Seq<char>) -> Seq<char> {
    "export SSH_AUTH_SOCK="@ + path
}

pub fn export_line(path: &str) -> (r: String)
    ensures
        r@ == export_text(path@),
{
    let mut r = "export SSH_AUTH_SOCK=".to_owned();
    r.append(path);
    r
}

/// Batch mode's decision on a sorted scan: nothing on an empty scan, the
/// assignment for the first (newest) candidate otherwise.
pub fn batch_output(found: &Vec<Candidate>) -> (r: Option<String>)
    ensures
        (r is None <==> found@.len() == 0),
        found@.len() > 0 ==> (r matches Option::Some(line) && line@ == export_text(
            found@[0].path@,
        )),
{
    if found.len() == 0 {
        Option::None
    } else {
        Option::Some(export_line(found[0].path.as_str()))
    }
}

/// The prompt shown before reading a selection.
pub open spec fn prompt_text(n: nat) -> Seq<char> {
    "Enter socket number (1-"@ + dec_str(n) + ") or 'q' to quit: "@
}

pub fn prompt_line(count: usize) -> (r: String)
    ensures
        r@ == prompt_text(count as nat),
{
    let mut r = "Enter socket number (1-".to_owned();
    let n = u64_to_string(count as u64);
    r.append(n.as_str());
    r.append(") or 'q' to quit: ");
    proof {
        assert(r@ =~= prompt_text(count as nat));
    }
    r
}

/// The complaint shown after an invalid selection.
pub open spec fn invalid_text(n: nat) -> Seq<char> {
    "Invalid selection. Please enter a number between 1 and "@ + dec_str(n) + " or 'q' to quit."@
}

pub fn invalid_line(count: usize) -> (r: String)
    ensures
        r@ == invalid_text(count as nat),
{
    let mut r = "Invalid selection. Please enter a number between 1 and ".to_owned();
    let n = u64_to_string(count as u64);
    r.append(n.as_str());
    r.append(" or 'q' to quit.");
    proof {
        assert(r@ =~= invalid_text(count as nat));
    }
    r
}

/// The acknowledgement request after a complaint.
pub open spec fn press_enter_text() -> Seq<char> {
    "Press Enter to continue..."@
}

pub fn press_enter_line() -> (r: String)
    ensures
        r@ == press_enter_text(),
{
    "Press Enter to continue...".to_owned()
}

} // verus!
