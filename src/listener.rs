//! The control protocol: one request line per connection, `VERB [NAME ...]`.
use vstd::prelude::*;

use crate::text::{
    is_word, join_words, lemma_words_of_join, str_eq, strings_view, words, words_of,
};

verus! {

/// A command of the control protocol. An empty list of names means every
/// job.
#[derive(Debug)]
pub enum Action {
    Start(Vec<String>),
    Stop(Vec<String>),
    Restart(Vec<String>),
    Status(Vec<String>),
    Reload,
    Shutdown,
}

/// Why a request could not be read.
#[derive(Debug)]
pub enum ParseError {
    /// The request holds no word.
    Empty,
    /// The first word is no known verb.
    UnknownVerb(String),
}

/// Whether `w` is one of the protocol's verbs.
pub open spec fn is_verb(w: Seq<char>) -> bool {
    w == "start"@ || w == "stop"@ || w == "restart"@ || w == "status"@ || w == "reload"@ || w
        == "shutdown"@
}

/// The job names an action targets.
pub open spec fn action_names(a: Action) -> Seq<Seq<char>> {
    match a {
        Action::Start(n) => strings_view(n@),
        Action::Stop(n) => strings_view(n@),
        Action::Restart(n) => strings_view(n@),
        Action::Status(n) => strings_view(n@),
        _ => Seq::empty(),
    }
}

/// `a` is the action that the words `ws` ask for.
pub open spec fn parsed_as(ws: Seq<Seq<char>>, a: Action) -> bool {
    let v = ws[0];
    let args = ws.drop_first();
    &&& v == "start"@ ==> a is Start && action_names(a) == args
    &&& v == "stop"@ ==> a is Stop && action_names(a) == args
    &&& v == "restart"@ ==> a is Restart && action_names(a) == args
    &&& v == "status"@ ==> a is Status && action_names(a) == args
    &&& v == "reload"@ ==> a is Reload
    &&& v == "shutdown"@ ==> a is Shutdown
}

/// The verb that names the kind of `a`.
pub open spec fn verb_of(a: Action) -> Seq<char> {
    match a {
        Action::Start(_) => "start"@,
        Action::Stop(_) => "stop"@,
        Action::Restart(_) => "restart"@,
        Action::Status(_) => "status"@,
        Action::Reload => "reload"@,
        Action::Shutdown => "shutdown"@,
    }
}

/// The request line for `a`: its verb, then its names, one space apart.
pub open spec fn request_text(a: Action) -> Seq<char> {
    join_words(verb_of(a), action_names(a))
}

impl Action {
    /// Reads a request: its first word is the verb, the others are names.
    /// Names after `reload` or `shutdown` are ignored.
    pub fn parse(s: &str) -> (r: Result<Action, ParseError>)
        ensures
            words_of(s@).len() == 0 ==> r matches Err(ParseError::Empty),
            words_of(s@).len() > 0 && is_verb(words_of(s@)[0]) ==> r is Ok && parsed_as(
                words_of(s@),
                r->Ok_0,
            ),
            words_of(s@).len() > 0 && !is_verb(words_of(s@)[0]) ==> (r matches Err(
                ParseError::UnknownVerb(w),
            ) && w@ == words_of(s@)[0]),
    {
        let mut ws = words(s);
        if ws.len() == 0 {
            return Err(ParseError::Empty);
        }
        let ghost all = strings_view(ws@);
        let verb = ws.remove(0);
        assert(strings_view(ws@) =~= all.drop_first());
        assert(verb@ == all[0]);
        let v = verb.as_str();
        proof {
            reveal_strlit("start");
            reveal_strlit("stop");
            reveal_strlit("restart");
            reveal_strlit("status");
            reveal_strlit("reload");
            reveal_strlit("shutdown");
            assert("start"@.len() != "stop"@.len());
            assert("start"@.len() != "restart"@.len());
            assert("start"@.len() != "status"@.len());
            assert("start"@.len() != "reload"@.len());
            assert("start"@.len() != "shutdown"@.len());
            assert("stop"@.len() != "restart"@.len());
            assert("stop"@.len() != "status"@.len());
            assert("stop"@.len() != "reload"@.len());
            assert("stop"@.len() != "shutdown"@.len());
            assert("restart"@.len() != "status"@.len());
            assert("restart"@.len() != "reload"@.len());
            assert("restart"@.len() != "shutdown"@.len());
            assert("status"@[0] != "reload"@[0]);
            assert("status"@.len() != "shutdown"@.len());
            assert("reload"@.len() != "shutdown"@.len());
        }
        if str_eq(v, "start") {
            Ok(Action::Start(ws))
        } else if str_eq(v, "stop") {
            Ok(Action::Stop(ws))
        } else if str_eq(v, "restart") {
            Ok(Action::Restart(ws))
        } else if str_eq(v, "status") {
            Ok(Action::Status(ws))
        } else if str_eq(v, "reload") {
            Ok(Action::Reload)
        } else if str_eq(v, "shutdown") {
            Ok(Action::Shutdown)
        } else {
            Err(ParseError::UnknownVerb(verb))
        }
    }
    /// The request line that asks for this action.
    pub fn to_request(&self) -> (r: String)
        ensures
            r@ == request_text(*self),
    {
        let mut out = String::new();
        let names = match self {
            Action::Start(n) => {
                out.append("start");
                n
            },
            Action::Stop(n) => {
                out.append("stop");
                n
            },
            Action::Restart(n) => {
                out.append("restart");
                n
            },
            Action::Status(n) => {
                out.append("status");
                n
            },
            Action::Reload => {
                out.append("reload");
                return out;
            },
            Action::Shutdown => {
                out.append("shutdown");
                return out;
            },
        };
        proof {
            reveal_strlit(" ");
        }
        let ghost verb = out@;
        let mut i: usize = 0;
        assert(strings_view(names@).take(0) =~= Seq::<Seq<char>>::empty());
        while i < names.len()
            invariant
                0 <= i <= names@.len(),
                verb == verb_of(*self),
                action_names(*self) == strings_view(names@),
                out@ == join_words(verb, strings_view(names@).take(i as int)),
                " "@ == seq![' '],
            decreases names@.len() - i,
        {
            out.append(" ");
            out.append(names[i].as_str());
            proof {
                let ns = strings_view(names@).take(i + 1);
                assert(ns.drop_last() =~= strings_view(names@).take(i as int));
                assert(ns.last() == names@[i as int]@);
            }
            i = i + 1;
        }
        assert(strings_view(names@).take(names@.len() as int) =~= strings_view(names@));
        out
    }
}

/// Requests read back as they were written: when every name is a word,
/// the request line for `a` splits into its verb followed by its names, so
/// parsing it gives an action of the same kind with the same names.
pub proof fn lemma_request_round_trip(a: Action)
    requires
        forall|i: int| 0 <= i < action_names(a).len() ==> is_word(#[trigger] action_names(a)[i]),
    ensures
        words_of(request_text(a)) == seq![verb_of(a)] + action_names(a),
        is_verb(verb_of(a)),
        forall|b: Action|
            parsed_as(words_of(request_text(a)), b) ==> verb_of(b) == verb_of(a) && action_names(b)
                == action_names(a),
{
    reveal_strlit("start");
    reveal_strlit("stop");
    reveal_strlit("restart");
    reveal_strlit("status");
    reveal_strlit("reload");
    reveal_strlit("shutdown");
    lemma_words_of_join(verb_of(a), action_names(a));
    let ws = seq![verb_of(a)] + action_names(a);
    assert(ws[0] == verb_of(a));
    assert(ws.drop_first() =~= action_names(a));
}

} // verus!
