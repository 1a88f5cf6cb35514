//! The line protocol of the service's control socket: how a request line is
//! cut into arguments, how the client joins its command, what is answered,
//! and what a new server does about a socket node already on disk.

use vstd::prelude::*;

use crate::text::{
    chars_of, find_char, index_of, is_white, lemma_index_of, lemma_index_of_at, lemma_views_push,
    push_str, string_of, trim, trim_bounds, trim_end, trim_end_bound, trim_start, views,
};

verus! {

/// The reply to a request that was handled.
pub const REPLY_OK: &'static str = "OK";

/// The reply to a request whose handler failed.
pub const REPLY_KO: &'static str = "KO";

/// At most this many arguments are cut out of a request line.
pub const MAX_PARAM_SPLIT: usize = 3;

/// `str::splitn(n, c)`: the pieces of `s` between the first `n - 1`
/// occurrences of `c`, the rest of `s` kept whole as the last one.
pub open spec fn splitn(s: Seq<char>, n: nat, c: char) -> Seq<Seq<char>>
    decreases n,
{
    if n <= 1 {
        seq![s]
    } else {
        match index_of(s, c) {
            Some(i) => if 0 <= i < s.len() {
                seq![s.take(i)] + splitn(s.skip(i + 1), (n - 1) as nat, c)
            } else {
                seq![s]
            },
            None => seq![s],
        }
    }
}

/// The arguments of a request line: the line trimmed, then cut at its first
/// two spaces, the rest of the line staying together as the last argument.
pub open spec fn request_args_of(line: Seq<char>) -> Seq<Seq<char>> {
    splitn(trim(line), 3, ' ')
}

/// `parts` joined with single spaces.
pub open spec fn joined_with_spaces(parts: Seq<Seq<char>>) -> Seq<char>
    decreases parts.len(),
{
    if parts.len() == 0 {
        seq![]
    } else if parts.len() == 1 {
        parts[0]
    } else {
        joined_with_spaces(parts.drop_last()) + seq![' '] + parts.last()
    }
}

/// The arguments a request line carries.
pub fn request_args(line: &str) -> (r: Vec<String>)
    ensures
        views(r@) == request_args_of(line@),
{
    let v = chars_of(line);
    let n = v.len();
    assert(v@.subrange(0, n as int) =~= v@);
    let (a, b) = trim_bounds(&v, 0, n);
    let ghost t = v@.subrange(a as int, b as int);
    let mut r: Vec<String> = Vec::new();
    let mut start: usize = a;
    let mut left: usize = MAX_PARAM_SPLIT;
    assert(views(r@) =~= Seq::<Seq<char>>::empty());
    while left > 1
        invariant
            a <= start <= b <= n,
            n == v@.len(),
            t == v@.subrange(a as int, b as int),
            t == trim(line@),
            v@ == line@,
            1 <= left <= MAX_PARAM_SPLIT,
            views(r@) + splitn(v@.subrange(start as int, b as int), left as nat, ' ') == splitn(
                t,
                3,
                ' ',
            ),
        decreases left,
    {
        let ghost rest = v@.subrange(start as int, b as int);
        let ghost before = views(r@);
        match find_char(&v, start, b, ' ') {
            Some(i) => {
                let piece = string_of(&v, start, i);
                assert(rest.take(i - start) =~= v@.subrange(start as int, i as int));
                assert(rest.skip(i - start + 1) =~= v@.subrange(i + 1, b as int));
                proof {
                    lemma_views_push(r@, piece);
                }
                r.push(piece);
                start = i + 1;
                left = left - 1;
                assert(views(r@) + splitn(v@.subrange(start as int, b as int), left as nat, ' ')
                    =~= before + splitn(rest, (left + 1) as nat, ' '));
            },
            None => {
                let piece = string_of(&v, start, b);
                proof {
                    lemma_views_push(r@, piece);
                }
                r.push(piece);
                assert(views(r@) =~= splitn(t, 3, ' '));
                return r;
            },
        }
    }
    let piece = string_of(&v, start, b);
    proof {
        lemma_views_push(r@, piece);
    }
    r.push(piece);
    assert(views(r@) =~= splitn(t, 3, ' '));
    r
}

/// The one line a client sends: its command words joined with spaces.
pub fn command_line(commands: &[String]) -> (r: String)
    ensures
        r@ == joined_with_spaces(views(commands@)),
{
    let mut r = String::new();
    let mut i: usize = 0;
    assert(views(commands@).take(0) =~= Seq::<Seq<char>>::empty());
    while i < commands.len()
        invariant
            i <= commands@.len(),
            r@ == joined_with_spaces(views(commands@).take(i as int)),
        decreases commands@.len() - i,
    {
        let ghost r0 = r@;
        if i > 0 {
            r.push(' ');
        }
        push_str(&mut r, commands[i].as_str());
        proof {
            let t = views(commands@).take(i + 1);
            assert(t.drop_last() =~= views(commands@).take(i as int));
            assert(t.last() == commands@[i as int]@);
            if i == 0 {
                assert(t.len() == 1);
            }
        }
        i = i + 1;
        assert(r@ =~= joined_with_spaces(views(commands@).take(i as int)));
    }
    assert(views(commands@).take(i as int) =~= views(commands@));
    r
}

/// The server's reply as the client prints it: without its line ending and
/// any trailing white space.
pub fn reply_text(reply: &str) -> (r: String)
    ensures
        r@ == trim_end(reply@),
{
    let v = chars_of(reply);
    let n = v.len();
    assert(v@.subrange(0, n as int) =~= v@);
    let e = trim_end_bound(&v, 0, n);
    string_of(&v, 0, e)
}

/// What answers the client once its connection is done with: `OK` when every
/// request was handled, `KO` when one failed.
pub fn closing_reply(handled: bool) -> (r: &'static str)
    ensures
        r@ == if handled {
            REPLY_OK@
        } else {
            REPLY_KO@
        },
{
    if handled {
        REPLY_OK
    } else {
        REPLY_KO
    }
}

/// How an attempt to connect to an existing socket node went.
#[derive(Clone, Copy, Debug, PartialEq, Eq, Structural)]
pub enum Probe {
    /// Somebody answered.
    Answered,
    /// The connection was refused: nobody listens there any more.
    Refused,
    /// Any other failure.
    Failed,
}

/// What a starting server does about the path of its socket.
#[derive(Clone, Copy, Debug, PartialEq, Eq, Structural)]
pub enum StartAction {
    /// Nothing is there: bind.
    Bind,
    /// A stale node is there: remove it, then bind.
    RemoveStaleThenBind,
    /// A running server is there: leave it alone and fail.
    AlreadyListening,
    /// The node could not be checked: fail with that error.
    ProbeFailed,
}

/// What a server about to start does, given whether a node exists at its
/// path and, if so, how connecting to it went.
pub fn start_action(exists: bool, probe: Probe) -> (r: StartAction)
    ensures
        !exists ==> r == StartAction::Bind,
        exists && probe == Probe::Answered ==> r == StartAction::AlreadyListening,
        exists && probe == Probe::Refused ==> r == StartAction::RemoveStaleThenBind,
        exists && probe == Probe::Failed ==> r == StartAction::ProbeFailed,
{
    if !exists {
        return StartAction::Bind;
    }
    match probe {
        Probe::Answered => StartAction::AlreadyListening,
        Probe::Refused => StartAction::RemoveStaleThenBind,
        Probe::Failed => StartAction::ProbeFailed,
    }
}

/// The refusal a starting server gives when a live one holds `path`.
pub fn already_listening_message(path: &str) -> (r: String)
    ensures
        r@ == "a server is already listening on "@ + path@,
{
    let mut r = "a server is already listening on ".to_owned();
    push_str(&mut r, path);
    r
}

} // verus!

verus! {

/// A word a command line can carry intact: not empty, no white space.
pub open spec fn is_word(w: Seq<char>) -> bool {
    w.len() > 0 && forall|i: int| 0 <= i < w.len() ==> !is_white(#[trigger] w[i])
}

proof fn lemma_join_front(ws: Seq<Seq<char>>)
    requires
        ws.len() >= 2,
    ensures
        joined_with_spaces(ws) == ws[0] + seq![' '] + joined_with_spaces(ws.skip(1)),
    decreases ws.len(),
{
    if ws.len() == 2 {
        assert(ws.drop_last() =~= seq![ws[0]]);
        assert(ws.skip(1) =~= seq![ws[1]]);
        assert(joined_with_spaces(ws.drop_last()) == ws[0]);
        assert(joined_with_spaces(ws.skip(1)) == ws[1]);
        assert(ws.last() == ws[1]);
    } else {
        let dl = ws.drop_last();
        lemma_join_front(dl);
        assert(ws.skip(1).drop_last() =~= dl.skip(1));
        assert(ws.skip(1).last() == ws.last());
        assert(joined_with_spaces(ws) =~= ws[0] + seq![' '] + joined_with_spaces(ws.skip(1)));
    }
}

proof fn lemma_join_ends(ws: Seq<Seq<char>>)
    requires
        ws.len() >= 1,
        forall|i: int| 0 <= i < ws.len() ==> is_word(#[trigger] ws[i]),
    ensures
        joined_with_spaces(ws).len() > 0,
        joined_with_spaces(ws)[0] == ws[0][0],
        joined_with_spaces(ws).last() == ws.last().last(),
    decreases ws.len(),
{
    assert(is_word(ws[0]));
    assert(is_word(ws.last()));
    if ws.len() >= 2 {
        lemma_join_front(ws);
    }
}

proof fn lemma_no_space_in_word(w: Seq<char>)
    requires
        is_word(w),
    ensures
        !w.contains(' '),
{
    if w.contains(' ') {
        let i = choose|i: int| 0 <= i < w.len() && w[i] == ' ';
        assert(!is_white(w[i]));
    }
}

proof fn lemma_splitn_words(ws: Seq<Seq<char>>, n: nat)
    requires
        ws.len() >= 1,
        n >= 1,
        forall|i: int| 0 <= i < ws.len() ==> is_word(#[trigger] ws[i]),
    ensures
        splitn(joined_with_spaces(ws), n, ' ') == if ws.len() <= n {
            ws
        } else {
            ws.take(n - 1).push(joined_with_spaces(ws.skip(n - 1)))
        },
    decreases n,
{
    if n == 1 {
        if ws.len() <= 1 {
            assert(ws =~= seq![ws[0]]);
        } else {
            assert(ws.skip(0) =~= ws);
            assert(ws.take(0).push(joined_with_spaces(ws)) =~= seq![joined_with_spaces(ws)]);
        }
    } else if ws.len() == 1 {
        assert(is_word(ws[0]));
        lemma_no_space_in_word(ws[0]);
        lemma_index_of(ws[0], ' ');
        match index_of(ws[0], ' ') {
            Some(i) => {
                assert(ws[0][i] == ' ');
            },
            None => {},
        }
        assert(ws =~= seq![ws[0]]);
    } else {
        let w0 = ws[0];
        let rest = ws.skip(1);
        assert(is_word(w0));
        lemma_no_space_in_word(w0);
        lemma_join_front(ws);
        let j = joined_with_spaces(ws);
        let tail = seq![' '] + joined_with_spaces(rest);
        assert(j == w0 + tail);
        assert forall|k: int| 0 <= k < w0.len() implies j[k] != ' ' by {
            assert(j[k] == w0[k]);
        }
        assert(j[w0.len() as int] == ' ');
        lemma_index_of_at(j, ' ', w0.len() as int);
        assert(j.take(w0.len() as int) =~= w0);
        assert(j.skip((w0.len() + 1) as int) =~= joined_with_spaces(rest));
        assert forall|i: int| 0 <= i < rest.len() implies is_word(#[trigger] rest[i]) by {
            assert(rest[i] == ws[i + 1]);
        }
        lemma_splitn_words(rest, (n - 1) as nat);
        if ws.len() <= n {
            assert(seq![w0] + rest =~= ws);
        } else {
            assert(rest.skip(n - 2) =~= ws.skip(n - 1));
            assert(seq![w0] + rest.take(n - 2).push(joined_with_spaces(rest.skip(n - 2))) =~= ws.take(
                n - 1,
            ).push(joined_with_spaces(ws.skip(n - 1))));
        }
    }
}

/// What a client sends is what the server hands its callback: the words of
/// a command, joined by the client and cut again by the server, come back
/// as they were — the first two apart, any further ones kept together as
/// the last argument.
pub proof fn lemma_request_round_trip(words: Seq<Seq<char>>)
    requires
        words.len() >= 1,
        forall|i: int| 0 <= i < words.len() ==> is_word(#[trigger] words[i]),
    ensures
        request_args_of(joined_with_spaces(words)) == if words.len() <= 3 {
            words
        } else {
            words.take(2).push(joined_with_spaces(words.skip(2)))
        },
{
    let j = joined_with_spaces(words);
    lemma_join_ends(words);
    assert(is_word(words[0]));
    assert(is_word(words.last()));
    assert(!is_white(j[0]));
    assert(!is_white(j.last()));
    assert(trim_start(j) == j);
    assert(trim_end(j) == j);
    lemma_splitn_words(words, 3);
}

} // verus!
