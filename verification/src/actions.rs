//! The kind of edit an operation performs, and its textual decoder.
//!
//! An action is written on the command line as one of four aliases:
//! `-s` / `--set` or `-r` / `--remove`.  The decoder trims surrounding
//! whitespace and matches the rest case-sensitively; anything else is
//! rejected.

use vstd::prelude::*;

verus! {

/// The kind of edit an operation performs on the configuration store.
///
/// `Put` upserts a key/value pair into a section; `Remove` deletes a key
/// or a whole section.
#[derive(Debug, PartialEq, Eq, Structural, Clone, Copy)]
pub enum Action {
    Put,
    Remove,
}

/// A character that counts as trimmable whitespace: the Unicode
/// `White_Space` set, as `str::trim` understands it.
pub open spec fn is_ws(c: char) -> bool {
    let u = c as u32;
    u == 0x09 || u == 0x0A || u == 0x0B || u == 0x0C || u == 0x0D || u == 0x20 || u == 0x85
        || u == 0xA0 || u == 0x1680 || (0x2000 <= u && u <= 0x200A) || u == 0x2028 || u == 0x2029
        || u == 0x202F || u == 0x205F || u == 0x3000
}

/// `s` with its leading whitespace removed.
pub open spec fn ltrim(s: Seq<char>) -> Seq<char>
    decreases s.len(),
{
    if s.len() > 0 && is_ws(s[0]) {
        ltrim(s.drop_first())
    } else {
        s
    }
}

/// `s` with its trailing whitespace removed.
pub open spec fn rtrim(s: Seq<char>) -> Seq<char>
    decreases s.len(),
{
    if s.len() > 0 && is_ws(s.last()) {
        rtrim(s.drop_last())
    } else {
        s
    }
}

/// `s` with both leading and trailing whitespace removed.
pub open spec fn trimmed(s: Seq<char>) -> Seq<char> {
    rtrim(ltrim(s))
}

/// What a raw token decodes to: `Some` action for a recognized alias
/// (after trimming), `None` for everything else.
pub open spec fn action_of(s: Seq<char>) -> Option<Action> {
    let t = trimmed(s);
    if t == seq!['-', 's'] || t == seq!['-', '-', 's', 'e', 't'] {
        Some(Action::Put)
    } else if t == seq!['-', 'r'] || t == seq!['-', '-', 'r', 'e', 'm', 'o', 'v', 'e'] {
        Some(Action::Remove)
    } else {
        None
    }
}

/// Executable mirror of `is_ws`.
pub fn is_ws_char(c: char) -> (b: bool)
    ensures
        b == is_ws(c),
{
    let u = c as u32;
    u == 0x09 || u == 0x0A || u == 0x0B || u == 0x0C || u == 0x0D || u == 0x20 || u == 0x85
        || u == 0xA0 || u == 0x1680 || (0x2000 <= u && u <= 0x200A) || u == 0x2028 || u == 0x2029
        || u == 0x202F || u == 0x205F || u == 0x3000
}

proof fn lemma_ltrim_from_scan(s: Seq<char>, k: int)
    requires
        0 <= k <= s.len(),
        forall|j: int| 0 <= j < k ==> is_ws(s[j]),
        k == s.len() || !is_ws(s[k]),
    ensures
        ltrim(s) == s.skip(k),
    decreases k,
{
    if k == 0 {
        assert(s.skip(0) =~= s);
    } else {
        lemma_ltrim_from_scan(s.drop_first(), k - 1);
        assert(s.drop_first().skip(k - 1) =~= s.skip(k));
    }
}

proof fn lemma_rtrim_from_scan(s: Seq<char>, k: int)
    requires
        0 <= k <= s.len(),
        forall|j: int| k <= j < s.len() ==> is_ws(s[j]),
        k == 0 || !is_ws(s[k - 1]),
    ensures
        rtrim(s) == s.take(k),
    decreases s.len(),
{
    if k == s.len() {
        if s.len() == 0 || !is_ws(s.last()) {
            assert(s.take(k) =~= s);
        } else {
            lemma_rtrim_from_scan(s.drop_last(), k - 1);
            assert(s.drop_last().take(k - 1) =~= s.take(k - 1));
            assert(s.take(k - 1) =~= s.take(k).drop_last());
            assert(rtrim(s) == rtrim(s.drop_last()));
            assert(s.drop_last() =~= s.take(k - 1));
        }
    } else {
        assert(is_ws(s[s.len() - 1]));
        lemma_rtrim_from_scan(s.drop_last(), k);
        assert(s.drop_last().take(k) =~= s.take(k));
    }
}

proof fn lemma_rtrim_prefix(s: Seq<char>)
    ensures
        rtrim(s).len() <= s.len(),
        forall|i: int| 0 <= i < rtrim(s).len() ==> rtrim(s)[i] == s[i],
    decreases s.len(),
{
    if s.len() > 0 && is_ws(s.last()) {
        lemma_rtrim_prefix(s.drop_last());
        assert forall|i: int| 0 <= i < rtrim(s).len() implies rtrim(s)[i] == s[i] by {
            assert(rtrim(s)[i] == s.drop_last()[i]);
        }
    }
}

proof fn lemma_rtrim_no_trailing(s: Seq<char>)
    ensures
        rtrim(s).len() > 0 ==> !is_ws(rtrim(s).last()),
    decreases s.len(),
{
    if s.len() > 0 && is_ws(s.last()) {
        lemma_rtrim_no_trailing(s.drop_last());
    }
}

proof fn lemma_ltrim_no_leading(s: Seq<char>)
    ensures
        ltrim(s).len() > 0 ==> !is_ws(ltrim(s)[0]),
    decreases s.len(),
{
    if s.len() > 0 && is_ws(s[0]) {
        lemma_ltrim_no_leading(s.drop_first());
    }
}

/// Trimming twice is the same as trimming once.
pub proof fn lemma_trimmed_idempotent(s: Seq<char>)
    ensures
        trimmed(trimmed(s)) == trimmed(s),
{
    let l = ltrim(s);
    let t = rtrim(l);
    lemma_ltrim_no_leading(s);
    lemma_rtrim_prefix(l);
    if t.len() > 0 {
        assert(t[0] == l[0]);
        assert(!is_ws(t[0]));
    }
    assert(ltrim(t) == t);
    lemma_rtrim_no_trailing(l);
    assert(rtrim(t) == t);
}

/// Surrounding whitespace never affects what an action token decodes
/// to: a padded alias decodes exactly as its trimmed form, and text
/// that is no alias fails either way.
pub proof fn lemma_action_decode_trim_invariant(s: Seq<char>)
    ensures
        action_of(s) == action_of(trimmed(s)),
{
    lemma_trimmed_idempotent(s);
}

impl Action {
    /// Decode a raw command-line token into an action.
    ///
    /// The token is trimmed of surrounding whitespace and then matched
    /// case-sensitively against the aliases `-s`, `--set`, `-r` and
    /// `--remove`; every other text is rejected.
    pub fn from_str(s: &str) -> (r: Result<Action, String>)
        ensures
            r is Ok <==> action_of(s@) is Some,
            r is Ok ==> Some(r->Ok_0) == action_of(s@),
            r is Err ==> r->Err_0@ == "Expected valid action"@,
    {
        let n = s.unicode_len();
        let mut start: usize = 0;
        while start < n && is_ws_char(s.get_char(start))
            invariant
                0 <= start <= n,
                n == s@.len(),
                forall|j: int| 0 <= j < start ==> is_ws(s@[j]),
            decreases n - start,
        {
            start = start + 1;
        }
        let mut end: usize = n;
        while end > start && is_ws_char(s.get_char(end - 1))
            invariant
                start <= end <= n,
                n == s@.len(),
                forall|j: int| end <= j < n ==> is_ws(s@[j]),
            decreases end,
        {
            end = end - 1;
        }
        proof {
            lemma_ltrim_from_scan(s@, start as int);
            lemma_rtrim_from_scan(s@.skip(start as int), end - start);
            assert(s@.skip(start as int).take(end - start) =~= s@.subrange(
                start as int,
                end as int,
            ));
            assert(trimmed(s@) == s@.subrange(start as int, end as int));
        }
        let ghost t = trimmed(s@);
        let len = end - start;
        if len == 2 && s.get_char(start) == '-' && s.get_char(start + 1) == 's' {
            proof {
                assert(t =~= seq!['-', 's']);
            }
            Ok(Action::Put)
        } else if len == 5 && s.get_char(start) == '-' && s.get_char(start + 1) == '-'
            && s.get_char(start + 2) == 's' && s.get_char(start + 3) == 'e' && s.get_char(
            start + 4,
        ) == 't' {
            proof {
                assert(t =~= seq!['-', '-', 's', 'e', 't']);
            }
            Ok(Action::Put)
        } else if len == 2 && s.get_char(start) == '-' && s.get_char(start + 1) == 'r' {
            proof {
                assert(t =~= seq!['-', 'r']);
            }
            Ok(Action::Remove)
        } else if len == 8 && s.get_char(start) == '-' && s.get_char(start + 1) == '-'
            && s.get_char(start + 2) == 'r' && s.get_char(start + 3) == 'e' && s.get_char(
            start + 4,
        ) == 'm' && s.get_char(start + 5) == 'o' && s.get_char(start + 6) == 'v' && s.get_char(
            start + 7,
        ) == 'e' {
            proof {
                assert(t =~= seq!['-', '-', 'r', 'e', 'm', 'o', 'v', 'e']);
            }
            Ok(Action::Remove)
        } else {
            proof {
                assert(t != seq!['-', 's'] && t != seq!['-', '-', 's', 'e', 't'] && t != seq![
                    '-',
                    'r',
                ] && t != seq!['-', '-', 'r', 'e', 'm', 'o', 'v', 'e']) by {
                    assert(t == s@.subrange(start as int, end as int));
                }
            }
            Err("Expected valid action".to_owned())
        }
    }
}

} // verus!
