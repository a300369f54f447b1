//! Decoding token-runs into edit operations, and grouping a raw
//! argument list into such runs.
//!
//! A token-run is 1 to 3 raw strings: the action token, an optional
//! section text, and an optional combined `key=value` text.  The
//! grouper splits the argument list at every token that begins with
//! `-`, hands each run to the decoder, and silently drops runs that
//! fail to decode.

use vstd::prelude::*;

use crate::actions::{action_of, Action};

verus! {

/// The mathematical value of a decoded operation.
pub ghost struct CommandModel {
    pub action: Action,
    pub section: Seq<char>,
    pub key: Seq<char>,
    pub value: Seq<char>,
}

/// The index of the first `=` in `s`, if any.
pub open spec fn eq_index(s: Seq<char>) -> Option<int>
    decreases s.len(),
{
    if s.len() == 0 {
        None
    } else if s[0] == '=' {
        Some(0)
    } else {
        match eq_index(s.drop_first()) {
            Some(i) => Some(i + 1),
            None => None,
        }
    }
}

/// The key part of a combined `key=value` text: everything before the
/// first `=`, or the whole text when there is none.
pub open spec fn key_of(s: Seq<char>) -> Seq<char> {
    match eq_index(s) {
        Some(i) => s.take(i),
        None => s,
    }
}

/// The value part of a combined `key=value` text: everything after the
/// first `=` (later `=` characters included), or empty when there is
/// none.
pub open spec fn value_of(s: Seq<char>) -> Seq<char> {
    match eq_index(s) {
        Some(i) => s.skip(i + 1),
        None => Seq::empty(),
    }
}

/// What a token-run decodes to: `Some` operation when the run has 1 to
/// 3 elements and its first element is a recognized action alias,
/// `None` otherwise.  Section, key and value are taken verbatim, split
/// only at the first `=` of the third element.
pub open spec fn decode_run(run: Seq<Seq<char>>) -> Option<CommandModel> {
    if 1 <= run.len() <= 3 {
        match action_of(run[0]) {
            Some(a) => Some(
                CommandModel {
                    action: a,
                    section: if run.len() >= 2 {
                        run[1]
                    } else {
                        Seq::empty()
                    },
                    key: if run.len() >= 3 {
                        key_of(run[2])
                    } else {
                        Seq::empty()
                    },
                    value: if run.len() >= 3 {
                        value_of(run[2])
                    } else {
                        Seq::empty()
                    },
                },
            ),
            None => None,
        }
    } else {
        None
    }
}

/// Whether a raw token opens a new run: it begins with the flag marker.
pub open spec fn is_flag_token(t: Seq<char>) -> bool {
    t.len() > 0 && t[0] == '-'
}

/// The operations a finished accumulation buffer contributes: one
/// operation when it decodes, none when it is dropped.
pub open spec fn flush(buf: Seq<Seq<char>>) -> Seq<CommandModel> {
    match decode_run(buf) {
        Some(c) => seq![c],
        None => Seq::empty(),
    }
}

/// The grouping loop: walk the remaining tokens with the current
/// accumulation buffer, flushing the buffer at every flag token and
/// once more at the end.
pub open spec fn group_loop(args: Seq<Seq<char>>, buf: Seq<Seq<char>>) -> Seq<CommandModel>
    decreases args.len(),
{
    if args.len() == 0 {
        flush(buf)
    } else if is_flag_token(args[0]) {
        flush(buf) + group_loop(args.drop_first(), seq![args[0]])
    } else {
        group_loop(args.drop_first(), buf.push(args[0]))
    }
}

/// The ordered sequence of operations an argument list decodes to.
pub open spec fn commands_of(args: Seq<Seq<char>>) -> Seq<CommandModel> {
    group_loop(args, Seq::empty())
}

/// A single parsed edit instruction: an action plus section, key and
/// value texts.  An empty section stands for the default, unnamed
/// section.
#[derive(Debug)]
pub struct Command {
    pub action: Action,
    pub section: String,
    pub key: String,
    pub value: String,
}

impl View for Command {
    type V = CommandModel;

    open spec fn view(&self) -> CommandModel {
        CommandModel {
            action: self.action,
            section: self.section@,
            key: self.key@,
            value: self.value@,
        }
    }
}

impl DeepView for Command {
    type V = CommandModel;

    open spec fn deep_view(&self) -> CommandModel {
        self.view()
    }
}

impl PartialEq for Command {
    fn eq(&self, other: &Command) -> (r: bool) {
        self.action == other.action && self.section == other.section && self.key == other.key
            && self.value == other.value
    }
}

impl vstd::std_specs::cmp::PartialEqSpecImpl for Command {
    open spec fn obeys_eq_spec() -> bool {
        true
    }

    open spec fn eq_spec(&self, other: &Command) -> bool {
        self.action == other.action && self.section@ == other.section@ && self.key@ == other.key@
            && self.value@ == other.value@
    }
}

proof fn lemma_eq_index_from_scan(s: Seq<char>, i: int)
    requires
        0 <= i <= s.len(),
        forall|j: int| 0 <= j < i ==> s[j] != '=',
        i == s.len() || s[i] == '=',
    ensures
        eq_index(s) == if i == s.len() {
            None::<int>
        } else {
            Some(i)
        },
    decreases i,
{
    if i == 0 {
    } else {
        lemma_eq_index_from_scan(s.drop_first(), i - 1);
    }
}

impl Command {
    /// Decode one token-run into an operation.
    ///
    /// The run must have 1 to 3 elements and its first element must
    /// decode to an action; otherwise the whole run is rejected.  The
    /// optional second element becomes the section verbatim; the
    /// optional third is split at its first `=` into key and value,
    /// both verbatim.
    pub fn parse(s: &[&str]) -> (r: Result<Command, ()>)
        ensures
            r is Ok <==> decode_run(s.deep_view()) is Some,
            r is Ok ==> r->Ok_0@ == decode_run(s.deep_view())->Some_0,
    {
        proof {
            assert(s.deep_view().len() == s@.len());
        }
        if s.len() < 1 || s.len() > 3 {
            return Err(());
        }
        proof {
            assert(s.deep_view()[0] == s@[0]@);
        }
        let action = match Action::from_str(s[0]) {
            Ok(a) => a,
            Err(_) => {
                return Err(());
            },
        };
        let section: String = if s.len() >= 2 {
            proof {
                assert(s.deep_view()[1] == s@[1]@);
            }
            s[1].to_owned()
        } else {
            String::new()
        };
        let mut key: String = String::new();
        let mut value: String = String::new();
        if s.len() >= 3 {
            proof {
                assert(s.deep_view()[2] == s@[2]@);
            }
            let kv = s[2];
            let n = kv.unicode_len();
            let mut i: usize = 0;
            while i < n && kv.get_char(i) != '='
                invariant
                    0 <= i <= n,
                    n == kv@.len(),
                    forall|j: int| 0 <= j < i ==> kv@[j] != '=',
                decreases n - i,
            {
                i = i + 1;
            }
            proof {
                lemma_eq_index_from_scan(kv@, i as int);
            }
            key = kv.substring_char(0, i).to_owned();
            if i < n {
                value = kv.substring_char(i + 1, n).to_owned();
            }
            proof {
                if i < n {
                    assert(key@ =~= key_of(kv@));
                    assert(value@ =~= value_of(kv@));
                } else {
                    assert(key@ =~= key_of(kv@));
                    assert(value@ =~= value_of(kv@));
                }
            }
        }
        Ok(Command { action, section, key, value })
    }
}

/// Build the borrowed form of the accumulation buffer and attempt to
/// decode it as one run.
fn parse_buffer(buffer: &Vec<String>) -> (r: Result<Command, ()>)
    ensures
        r is Ok <==> decode_run(buffer.deep_view()) is Some,
        r is Ok ==> r->Ok_0@ == decode_run(buffer.deep_view())->Some_0,
{
    let mut refs: Vec<&str> = Vec::new();
    let n = buffer.len();
    let mut j: usize = 0;
    while j < n
        invariant
            0 <= j <= n,
            n == buffer@.len(),
            refs@.len() == j,
            forall|k: int| 0 <= k < j ==> refs@[k]@ == buffer@[k]@,
        decreases n - j,
    {
        refs.push(buffer[j].as_str());
        j = j + 1;
    }
    let sl: &[&str] = refs.as_slice();
    proof {
        assert(sl.deep_view() =~= buffer.deep_view());
    }
    Command::parse(sl)
}

/// Group a raw argument list into token-runs and decode each run,
/// dropping the runs that fail, in input order.
///
/// Tokens before the first flag token form a leading run whose decode
/// fails, so they never produce an operation; unrelated flag tokens
/// open runs of their own, fail to decode, and are likewise dropped.
pub fn into_commands(args: &[String]) -> (r: Vec<Command>)
    ensures
        r.deep_view() == commands_of(args.deep_view()),
{
    let ghost all: Seq<Seq<char>> = args.deep_view();
    let mut ret: Vec<Command> = Vec::new();
    let mut buffer: Vec<String> = Vec::new();
    let n = args.len();
    let mut idx: usize = 0;
    proof {
        assert(all.len() == args@.len());
        assert(all.skip(0) =~= all);
        assert(buffer.deep_view() =~= Seq::<Seq<char>>::empty());
        assert(ret.deep_view() =~= Seq::<CommandModel>::empty());
        assert(Seq::<CommandModel>::empty() + commands_of(all) =~= commands_of(all));
    }
    while idx < n
        invariant
            0 <= idx <= n,
            n == args@.len(),
            all == args.deep_view(),
            ret.deep_view() + group_loop(all.skip(idx as int), buffer.deep_view()) == commands_of(
                all,
            ),
        decreases n - idx,
    {
        let ghost buf0 = buffer.deep_view();
        let ghost ret0 = ret.deep_view();
        proof {
            assert(all[idx as int] == args@[idx as int]@);
            assert(all.skip(idx as int)[0] == all[idx as int]);
            assert(all.skip(idx as int).drop_first() =~= all.skip(idx as int + 1));
        }
        let a = &args[idx];
        let is_flag = a.as_str().unicode_len() > 0 && a.as_str().get_char(0) == '-';
        proof {
            assert(is_flag == is_flag_token(all[idx as int]));
        }
        if is_flag {
            match parse_buffer(&buffer) {
                Ok(c) => {
                    ret.push(c);
                    proof {
                        assert(ret.deep_view() =~= ret0 + flush(buf0));
                    }
                },
                Err(_) => {
                    proof {
                        assert(ret.deep_view() =~= ret0 + flush(buf0));
                    }
                },
            }
            buffer.clear();
        }
        buffer.push(a.clone());
        proof {
            if is_flag {
                assert(buffer.deep_view() =~= seq![all[idx as int]]);
                assert(group_loop(all.skip(idx as int), buf0) == flush(buf0) + group_loop(
                    all.skip(idx as int + 1),
                    buffer.deep_view(),
                ));
                assert(ret.deep_view() + group_loop(all.skip(idx as int + 1), buffer.deep_view())
                    =~= ret0 + group_loop(all.skip(idx as int), buf0));
            } else {
                assert(buffer.deep_view() =~= buf0.push(all[idx as int]));
                assert(group_loop(all.skip(idx as int), buf0) == group_loop(
                    all.skip(idx as int + 1),
                    buffer.deep_view(),
                ));
            }
        }
        idx = idx + 1;
    }
    proof {
        assert(all.skip(n as int) =~= Seq::<Seq<char>>::empty());
    }
    let ghost ret0 = ret.deep_view();
    let ghost buf0 = buffer.deep_view();
    match parse_buffer(&buffer) {
        Ok(c) => {
            ret.push(c);
            proof {
                assert(ret.deep_view() =~= ret0 + flush(buf0));
            }
        },
        Err(_) => {
            proof {
                assert(ret.deep_view() =~= ret0 + flush(buf0));
            }
        },
    }
    ret
}

proof fn lemma_group_loop_split(args: Seq<Seq<char>>, buf: Seq<Seq<char>>)
    requires
        args.len() > 0,
        is_flag_token(args[0]),
    ensures
        group_loop(args, buf) == flush(buf) + commands_of(args),
{
    assert(Seq::<Seq<char>>::empty().len() == 0);
    assert(flush(Seq::<Seq<char>>::empty()) =~= Seq::<CommandModel>::empty());
    assert(commands_of(args) =~= group_loop(args.drop_first(), seq![args[0]]));
}

proof fn lemma_group_loop_concat(args1: Seq<Seq<char>>, args2: Seq<Seq<char>>, buf: Seq<Seq<char>>)
    requires
        args2.len() == 0 || is_flag_token(args2[0]),
    ensures
        group_loop(args1 + args2, buf) == group_loop(args1, buf) + commands_of(args2),
    decreases args1.len(),
{
    if args1.len() == 0 {
        assert(args1 + args2 =~= args2);
        if args2.len() == 0 {
            assert(commands_of(args2) =~= Seq::<CommandModel>::empty());
            assert(flush(buf) + Seq::<CommandModel>::empty() =~= flush(buf));
        } else {
            lemma_group_loop_split(args2, buf);
        }
    } else {
        let rest = args1.drop_first() + args2;
        assert((args1 + args2).len() > 0);
        assert((args1 + args2)[0] == args1[0]);
        assert((args1 + args2).drop_first() =~= rest);
        if is_flag_token(args1[0]) {
            lemma_group_loop_concat(args1.drop_first(), args2, seq![args1[0]]);
            assert(flush(buf) + (group_loop(args1.drop_first(), seq![args1[0]]) + commands_of(
                args2,
            )) =~= (flush(buf) + group_loop(args1.drop_first(), seq![args1[0]])) + commands_of(
                args2,
            ));
        } else {
            lemma_group_loop_concat(args1.drop_first(), args2, buf.push(args1[0]));
        }
    }
}

/// Grouping is order-preserving and compositional: when a tail of the
/// argument list starts at a flag token (or is empty), the operations
/// of the whole list are exactly the operations of the head followed
/// by the operations of the tail, in that order.
pub proof fn lemma_grouping_order(args1: Seq<Seq<char>>, args2: Seq<Seq<char>>)
    requires
        args2.len() == 0 || is_flag_token(args2[0]),
    ensures
        commands_of(args1 + args2) == commands_of(args1) + commands_of(args2),
{
    lemma_group_loop_concat(args1, args2, Seq::empty());
}

} // verus!
