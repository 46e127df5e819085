//! The decisions of the chat bot: which command a message holds, and the
//! buffer of pending result pages it answers `:next` from.
use vstd::prelude::*;

use crate::commands::chars_equal;
use crate::text::{
    copy_string, is_whitespace, join, join_seq, push_char, push_signed_decimal, push_str,
    spec_is_whitespace, spec_to_lowercase, str_chars, string_from_range, to_lowercase,
    to_owned_string, trim, trim_seq, trim_start_seq, views, int_decimal,
};

verus! {

// ---------------------------------------------------------------------------
// Reading a message
// ---------------------------------------------------------------------------

/// The first word of `s` (`str::split_whitespace().next()`), if `s` holds
/// any non-whitespace character.
pub open spec fn first_word(s: Seq<char>) -> Option<Seq<char>> {
    let t = trim_start_seq(s);
    if t.len() == 0 {
        None
    } else {
        Some(leading_word(t))
    }
}

/// The longest prefix of `t` free of whitespace.
pub open spec fn leading_word(t: Seq<char>) -> Seq<char>
    decreases t.len(),
{
    if t.len() == 0 || spec_is_whitespace(t[0]) {
        Seq::empty()
    } else {
        seq![t[0]] + leading_word(t.drop_first())
    }
}

/// `s` with every leading repetition of `p` removed
/// (`str::trim_start_matches(p)`).
pub open spec fn strip_prefix_repeated(s: Seq<char>, p: Seq<char>) -> Seq<char>
    decreases s.len(),
{
    if p.len() > 0 && s.len() >= p.len() && s.take(p.len() as int) == p {
        strip_prefix_repeated(s.skip(p.len() as int), p)
    } else {
        s
    }
}

/// A command sent to the bot by an authorised user.
#[derive(PartialEq, Eq, Debug)]
pub enum BotCommand {
    /// Search the diary for the text.
    Search(String),
    /// Show the command summary.
    Help,
    /// Start a full synchronisation.
    Sync,
    /// Show the next pending result page.
    Next,
    /// Store the text in the diary cache.
    Insert(String),
}

/// The text after the command word: `s` with the leading repetitions of the
/// word removed, then trimmed.
pub open spec fn command_argument(s: Seq<char>, word: Seq<char>) -> Seq<char> {
    trim_seq(strip_prefix_repeated(s, word))
}

/// What the bot makes of the message `s`: the lower-cased first word selects
/// the command, and any other message is stored whole.
pub open spec fn bot_command_spec(s: Seq<char>) -> (BotCommandKind, Seq<char>) {
    match first_word(s) {
        None => (BotCommandKind::Insert, s),
        Some(w) => {
            let l = spec_to_lowercase(w);
            if l == ":search"@ || l == ":s"@ {
                (BotCommandKind::Search, command_argument(s, w))
            } else if l == ":help"@ || l == ":h"@ {
                (BotCommandKind::Help, Seq::empty())
            } else if l == ":sync"@ {
                (BotCommandKind::Sync, Seq::empty())
            } else if l == ":next"@ || l == ":n"@ {
                (BotCommandKind::Next, Seq::empty())
            } else if l == ":insert"@ || l == ":i"@ {
                (BotCommandKind::Insert, command_argument(s, w))
            } else {
                (BotCommandKind::Insert, s)
            }
        },
    }
}

/// The kind of a [`BotCommand`].
#[derive(Clone, Copy, PartialEq, Eq, Structural, Debug)]
pub enum BotCommandKind {
    Search,
    Help,
    Sync,
    Next,
    Insert,
}

impl BotCommand {
    /// The command's kind and its text (empty for commands without one).
    pub open spec fn spec_parts(self) -> (BotCommandKind, Seq<char>) {
        match self {
            BotCommand::Search(t) => (BotCommandKind::Search, t@),
            BotCommand::Help => (BotCommandKind::Help, Seq::empty()),
            BotCommand::Sync => (BotCommandKind::Sync, Seq::empty()),
            BotCommand::Next => (BotCommandKind::Next, Seq::empty()),
            BotCommand::Insert(t) => (BotCommandKind::Insert, t@),
        }
    }
}

/// The bounds of the first word of `v`, if any.
fn first_word_bounds(v: &Vec<char>) -> (r: Option<(usize, usize)>)
    ensures
        r matches Some(b) ==> b.0 < b.1 <= v@.len() && first_word(v@) == Some(
            v@.subrange(b.0 as int, b.1 as int),
        ),
        r is None ==> first_word(v@) is None,
{
    let mut i: usize = 0;
    assert(v@.skip(0) =~= v@);
    while i < v.len() && is_whitespace(v[i])
        invariant
            i <= v@.len(),
            trim_start_seq(v@) == trim_start_seq(v@.skip(i as int)),
        decreases v@.len() - i,
    {
        assert(v@.skip(i as int).drop_first() =~= v@.skip(i + 1));
        i += 1;
    }
    if i == v.len() {
        assert(v@.skip(i as int).len() == 0);
        return None;
    }
    let ghost t = v@.skip(i as int);
    assert(trim_start_seq(v@) == t);
    let mut j: usize = i;
    assert(t.skip(0) =~= t);
    assert(v@.subrange(i as int, i as int) =~= Seq::<char>::empty());
    while j < v.len() && !is_whitespace(v[j])
        invariant
            i <= j <= v@.len(),
            t == v@.skip(i as int),
            leading_word(t) == v@.subrange(i as int, j as int) + leading_word(t.skip(j - i)),
        decreases v@.len() - j,
    {
        proof {
            let u = t.skip(j - i);
            assert(u[0] == v@[j as int]);
            assert(u.drop_first() =~= t.skip(j - i + 1));
            assert(v@.subrange(i as int, j + 1) =~= v@.subrange(i as int, j as int) + seq![
                v@[j as int],
            ]);
        }
        j += 1;
    }
    proof {
        let u = t.skip(j - i);
        if j < v@.len() {
            assert(u[0] == v@[j as int]);
        }
        assert(leading_word(u) =~= Seq::<char>::empty());
        assert(v@.subrange(i as int, j as int) + Seq::<char>::empty() =~= v@.subrange(
            i as int,
            j as int,
        ));
    }
    Some((i, j))
}

/// Whether `w` occurs in `v` at position `i`.
fn occurs_at(v: &Vec<char>, i: usize, w: &Vec<char>) -> (r: bool)
    requires
        i + w@.len() <= v@.len(),
    ensures
        r == (v@.skip(i as int).take(w@.len() as int) == w@),
{
    assert(v@.len() == v.len());
    let mut k: usize = 0;
    while k < w.len()
        invariant
            k <= w@.len(),
            i + w@.len() <= v@.len(),
            v@.len() <= usize::MAX,
            forall|m: int| 0 <= m < k ==> v@[i + m] == w@[m],
        decreases w@.len() - k,
    {
        if v[i + k] != w[k] {
            assert(v@.skip(i as int).take(w@.len() as int)[k as int] == v@[i + k]);
            return false;
        }
        k += 1;
    }
    assert(v@.skip(i as int).take(w@.len() as int) =~= w@);
    true
}

/// `s` with the leading repetitions of `w` removed.
fn strip_prefix_repeated_exec(v: &Vec<char>, w: &Vec<char>) -> (r: usize)
    ensures
        r <= v@.len(),
        strip_prefix_repeated(v@, w@) == v@.skip(r as int),
{
    let mut i: usize = 0;
    assert(v@.skip(0) =~= v@);
    if w.len() == 0 {
        return 0;
    }
    loop
        invariant
            i <= v@.len(),
            w@.len() > 0,
            strip_prefix_repeated(v@, w@) == strip_prefix_repeated(v@.skip(i as int), w@),
        decreases v@.len() - i,
    {
        if v.len() - i < w.len() {
            return i;
        }
        if !occurs_at(v, i, w) {
            return i;
        }
        assert(v@.skip(i as int).skip(w@.len() as int) =~= v@.skip(i + w@.len()));
        i = i + w.len();
    }
}

/// `s[from..]` as a `String`, trimmed.
fn trimmed_tail(v: &Vec<char>, from: usize) -> (r: String)
    requires
        from <= v@.len(),
    ensures
        r@ == trim_seq(v@.skip(from as int)),
{
    let tail = string_from_range(v, from, v.len());
    assert(v@.subrange(from as int, v@.len() as int) =~= v@.skip(from as int));
    trim(tail.as_str())
}

/// What the bot makes of a message from an authorised user (the dispatch on
/// the first word in the bot's message handler).
pub fn parse_bot_command(data: &str) -> (r: BotCommand)
    ensures
        r.spec_parts() == bot_command_spec(data@),
{
    let v = str_chars(data);
    match first_word_bounds(&v) {
        None => BotCommand::Insert(to_owned_string(data)),
        Some((i, j)) => {
            let word = string_from_range(&v, i, j);
            let w = str_chars(word.as_str());
            let lower = to_lowercase(word.as_str());
            let l = str_chars(lower.as_str());
            if chars_equal(&l, ":search") || chars_equal(&l, ":s") {
                let k = strip_prefix_repeated_exec(&v, &w);
                BotCommand::Search(trimmed_tail(&v, k))
            } else if chars_equal(&l, ":help") || chars_equal(&l, ":h") {
                BotCommand::Help
            } else if chars_equal(&l, ":sync") {
                BotCommand::Sync
            } else if chars_equal(&l, ":next") || chars_equal(&l, ":n") {
                BotCommand::Next
            } else if chars_equal(&l, ":insert") || chars_equal(&l, ":i") {
                let k = strip_prefix_repeated_exec(&v, &w);
                BotCommand::Insert(trimmed_tail(&v, k))
            } else {
                BotCommand::Insert(to_owned_string(data))
            }
        },
    }
}

// ---------------------------------------------------------------------------
// Replies
// ---------------------------------------------------------------------------

/// The reply when there is nothing left to show.
pub open spec fn empty_reply() -> Seq<char> {
    "..."@
}

/// The pages of output waiting to be shown, the next one last.
pub struct OutputBuffer {
    pages: Vec<String>,
}

impl View for OutputBuffer {
    type V = Seq<Seq<char>>;

    /// The pending pages in the order they will be shown.
    closed spec fn view(&self) -> Seq<Seq<char>> {
        views(self.pages@).reverse()
    }
}

impl OutputBuffer {
    /// An empty buffer.
    pub fn new() -> (r: Self)
        ensures
            r@ == Seq::<Seq<char>>::empty(),
    {
        let r = OutputBuffer { pages: Vec::new() };
        assert(r@ =~= Seq::<Seq<char>>::empty());
        r
    }

    /// Replaces the pending pages by the results of a search, to be shown
    /// first to last.
    pub fn set_search_results(&mut self, results: &Vec<String>)
        ensures
            final(self)@ == views(results@),
    {
        let mut pages: Vec<String> = Vec::new();
        let mut i: usize = results.len();
        while i > 0
            invariant
                i <= results@.len(),
                pages@.len() == results@.len() - i,
                forall|k: int|
                    0 <= k < pages@.len() ==> #[trigger] pages@[k]@ == results@[results@.len() - 1
                        - k]@,
            decreases i,
        {
            i -= 1;
            pages.push(copy_string(&results[i]));
        }
        self.pages = pages;
        assert(self@ =~= views(results@));
    }

    /// Replaces the pending pages by the report of a synchronisation, its
    /// lines joined into one page.
    pub fn set_sync_output(&mut self, lines: &Vec<String>)
        ensures
            final(self)@ == seq![join_seq(views(lines@), "\n"@)],
    {
        let page = join(lines, "\n");
        let mut pages: Vec<String> = Vec::new();
        pages.push(page);
        self.pages = pages;
        assert(self@ =~= seq![join_seq(views(lines@), "\n"@)]);
    }

    /// Takes the next pending page, or `...` when none is left.
    pub fn next_reply(&mut self) -> (r: String)
        ensures
            old(self)@.len() > 0 ==> r@ == old(self)@[0] && final(self)@ == old(self)@.drop_first(),
            old(self)@.len() == 0 ==> r@ == empty_reply() && final(self)@ == old(self)@,
    {
        match self.pages.pop() {
            Some(p) => {
                proof {
                    assert(self@ =~= old(self)@.drop_first());
                }
                p
            },
            None => {
                let r = to_owned_string("...");
                r
            },
        }
    }
}

/// The command summary the bot sends for `:help`.
pub fn help_text() -> (r: &'static str)
    ensures
        r@ == ":s, :search => search for text, get text for given date, or for `today`\n:n, :next => get the next page of search results\n:sync => sync with local and s3\n:i, :insert => insert text (also the action if no other command is specified"@,
{
    ":s, :search => search for text, get text for given date, or for `today`\n:n, :next => get the next page of search results\n:sync => sync with local and s3\n:i, :insert => insert text (also the action if no other command is specified"
}

/// The reply to `:sync`.
pub fn sync_started_text() -> (r: &'static str)
    ensures
        r@ == "started sync, reply with :n to see result"@,
{
    "started sync, reply with :n to see result"
}

/// The reply when storing a text fails.
pub fn cache_failed_text() -> (r: &'static str)
    ensures
        r@ == "failed to cache entry"@,
{
    "failed to cache entry"
}

/// `Hi, {name}, user_id {id}! You just wrote '{data}'`.
pub open spec fn greeting_spec(name: Seq<char>, id: int, data: Seq<char>) -> Seq<char> {
    "Hi, "@ + name + ", user_id "@ + int_decimal(id) + "! You just wrote '"@ + data + "'"@
}

/// The reply to a user the bot does not know.
pub fn greeting(first_name: &str, user_id: i64, data: &str) -> (r: String)
    ensures
        r@ == greeting_spec(first_name@, user_id as int, data@),
{
    let mut s = to_owned_string("Hi, ");
    push_str(&mut s, first_name);
    push_str(&mut s, ", user_id ");
    push_signed_decimal(&mut s, user_id);
    push_str(&mut s, "! You just wrote '");
    push_str(&mut s, data);
    push_str(&mut s, "'");
    assert(s@ =~= greeting_spec(first_name@, user_id as int, data@));
    s
}


/// What the bot does with a text message.
#[derive(PartialEq, Eq, Debug)]
pub enum BotPlan {
    /// The sender is not authorised: greet them with this reply.
    Greet(String),
    /// The sender is authorised: carry out the command.
    Run(BotCommand),
}

/// The bot's answer to a text message: the command it holds when the sender
/// is authorised, a greeting otherwise.
pub fn handle_message(authorized: bool, first_name: &str, user_id: i64, data: &str) -> (r: BotPlan)
    ensures
        authorized ==> (r matches BotPlan::Run(c) && c.spec_parts() == bot_command_spec(data@)),
        !authorized ==> (r matches BotPlan::Greet(g) && g@ == greeting_spec(first_name@, user_id as int, data@)),
{
    if authorized {
        BotPlan::Run(parse_bot_command(data))
    } else {
        BotPlan::Greet(greeting(first_name, user_id, data))
    }
}

/// The pages still pending after `k` replies to a buffer that held `pages`.
pub open spec fn pending_after(pages: Seq<Seq<char>>, k: nat) -> Seq<Seq<char>> {
    if k < pages.len() {
        pages.skip(k as int)
    } else {
        Seq::empty()
    }
}

/// The `k`-th reply (from zero) to a buffer that held `pages`.
pub open spec fn reply_at(pages: Seq<Seq<char>>, k: nat) -> Seq<char> {
    if k < pages.len() {
        pages[k as int]
    } else {
        empty_reply()
    }
}

/// Results are handed out in order, one per `:next`, then `...` for ever:
/// when the buffer holds what is left after `k` replies, the reply
/// `next_reply` gives (by its contract) is the `k`-th result and what it
/// leaves is what is left after `k + 1` replies.
pub proof fn law_replies_in_order(pages: Seq<Seq<char>>, k: nat, buffer: Seq<Seq<char>>, reply: Seq<char>, after: Seq<Seq<char>>)
    requires
        buffer == pending_after(pages, k),
        buffer.len() > 0 ==> reply == buffer[0] && after == buffer.drop_first(),
        buffer.len() == 0 ==> reply == empty_reply() && after == buffer,
    ensures
        reply == reply_at(pages, k),
        after == pending_after(pages, k + 1),
{
    if k < pages.len() {
        assert(buffer.drop_first() =~= pending_after(pages, k + 1));
    }
}

} // verus!
