//! Chat-channel plumbing the library decides for its callers: command
//! handling, the channel catalogue, and session bookkeeping. Sending and
//! receiving messages stays with the collaborators.

use vstd::prelude::*;

use vstd::string::StringExecFns;

use crate::embedding::EmbeddingProvider;
use crate::memory::MemoryDocument;
use crate::memory::MemoryIndex;
use crate::text::spec_trim;
use crate::text::str_eq;
use crate::text::str_to_chars;
use crate::text::chars_to_string;
use crate::text::trim_chars;

verus! {

/// Result of processing a possible command.
pub enum CommandResult {
    /// Not a command, continue with normal message processing.
    NotACommand,
    /// Command was handled, return this response to the user.
    Response(String),
}

/// The sessions of paired users, keyed by `channel:user_id`.
pub struct SessionStore {
    pub entries: Vec<(String, String)>,
}

/// The `channel:user_id` key under which a session is stored.
pub open spec fn spec_session_key(channel: Seq<char>, user_id: Seq<char>) -> Seq<char> {
    channel + ":"@ + user_id
}

/// The entries that survive dropping one session key.
pub open spec fn keeps_key(key: Seq<char>) -> spec_fn((String, String)) -> bool {
    |e: (String, String)| e.0@ != key
}

/// Builds the `channel:user_id` session key.
pub fn session_key(channel: &str, user_id: &str) -> (r: String)
    ensures
        r@ == spec_session_key(channel@, user_id@),
{
    let mut out = String::from_str(channel);
    out.append(":");
    out.append(user_id);
    out
}

impl SessionStore {
    pub fn new() -> (r: SessionStore)
        ensures
            r.entries@.len() == 0,
    {
        SessionStore { entries: Vec::new() }
    }

    /// Drops every session stored under the key.
    pub fn remove(&mut self, key: &str)
        ensures
            final(self).entries@ == old(self).entries@.filter(keeps_key(key@)),
    {
        let mut out: Vec<(String, String)> = Vec::new();
        let mut i: usize = 0;
        while i < self.entries.len()
            invariant
                i <= self.entries@.len(),
                out@ == self.entries@.take(i as int).filter(keeps_key(key@)),
            decreases self.entries@.len() - i,
        {
            let ghost pred = keeps_key(key@);
            proof {
                reveal(Seq::filter);
            }
            let ghost prefix = self.entries@.take(i as int);
            let e = (self.entries[i].0.clone(), self.entries[i].1.clone());
            proof {
                assert(self.entries@.take(i as int + 1).drop_last() =~= prefix);
                assert(self.entries@.take(i as int + 1).last() == self.entries@[i as int]);
            }
            let keep = !str_eq(e.0.as_str(), key);
            proof {
                assert(e.0@ == self.entries@[i as int].0@ && e.1@ == self.entries@[i as int].1@);
                assert(e == self.entries@[i as int]);
            }
            if keep {
                out.push(e);
            }
            proof {
                assert(out@ == self.entries@.take(i as int + 1).filter(pred));
            }
            i = i + 1;
        }
        proof {
            reveal(Seq::filter);
            assert(self.entries@.take(self.entries@.len() as int) =~= self.entries@);
        }
        self.entries = out;
    }

    /// Records the session a conversation turn came back with: an empty
    /// id means none was issued and changes nothing; otherwise the key's
    /// session is replaced by the new one.
    pub fn record(&mut self, key: &str, session_id: &str)
        ensures
            session_id@.len() == 0 ==> final(self).entries@ == old(self).entries@,
            session_id@.len() > 0 ==> final(self).entries@.drop_last()
                == old(self).entries@.filter(keeps_key(key@)) && final(self).entries@.len() > 0
                && final(self).entries@.last().0@ == key@ && final(self).entries@.last().1@
                == session_id@,
    {
        if session_id.is_empty() {
            return ;
        }
        self.remove(key);
        self.entries.push((String::from_str(key), String::from_str(session_id)));
    }
}

/// The needle occurs in the haystack starting at position `i`.
pub open spec fn occurs_at(h: Seq<char>, needle: Seq<char>, i: int) -> bool {
    0 <= i && i + needle.len() <= h.len() && h.subrange(i, i + needle.len()) == needle
}

/// The backend's way of saying a resumed session no longer exists; a
/// caller that sees it clears the session and retries fresh.
pub fn session_expired(error_message: &str) -> (r: bool)
    ensures
        r == exists|i: int|
            occurs_at(error_message@, "No conversation found with session ID"@, i),
{
    proof {
        reveal_strlit("No conversation found with session ID");
    }
    let h = str_to_chars(error_message);
    let n = str_to_chars("No conversation found with session ID");
    if n.len() > h.len() {
        proof {
            assert forall|i: int| !occurs_at(h@, n@, i) by {}
        }
        return false;
    }
    let mut i: usize = 0;
    while i <= h.len() - n.len()
        invariant
            h@ == error_message@,
            n@ == "No conversation found with session ID"@,
            1 <= n@.len() <= h@.len(),
            i <= h@.len() - n@.len() + 1,
            forall|t: int| 0 <= t < i ==> !occurs_at(h@, n@, t),
        decreases h.len() - n.len() + 1 - i,
    {
        let mut j: usize = 0;
        let mut matches = true;
        while j < n.len() && matches
            invariant
                i + n@.len() <= h@.len() <= usize::MAX,
                j <= n@.len(),
                matches ==> forall|t: int| 0 <= t < j ==> h@[i + t] == n@[t],
                !matches ==> !occurs_at(h@, n@, i as int),
            decreases
                    n.len() - j + (if matches {
                        1int
                    } else {
                        0int
                    }),
        {
            if h[i + j] != n[j] {
                proof {
                    assert(h@.subrange(i as int, i + n@.len())[j as int] == h@[i + j]);
                }
                matches = false;
            } else {
                j = j + 1;
            }
        }
        if matches {
            proof {
                assert(h@.subrange(i as int, i + n@.len()) =~= n@);
                assert(occurs_at(h@, n@, i as int));
            }
            return true;
        }
        i = i + 1;
    }
    proof {
        assert forall|t: int| !occurs_at(h@, n@, t) by {
            if 0 <= t <= h@.len() - n@.len() {
                assert(!occurs_at(h@, n@, t));
            }
        }
    }
    false
}

/// Splits an approval key of the form `channel:user_id` at its first
/// colon; a key without one names no tenant.
pub fn split_tenant_key(key: &str) -> (r: Option<(String, String)>)
    ensures
        (exists|i: int| 0 <= i < key@.len() && key@[i] == ':') <==> r is Some,
        r matches Some(pair) ==> {
            let i = choose|i: int|
                0 <= i < key@.len() && key@[i] == ':' && forall|t: int|
                    0 <= t < i ==> key@[t] != ':';
            pair.0@ == key@.subrange(0, i) && pair.1@ == key@.subrange(i + 1, key@.len() as int)
        },
{
    let chars = str_to_chars(key);
    let mut i: usize = 0;
    while i < chars.len()
        invariant
            chars@ == key@,
            i <= chars@.len(),
            forall|t: int| 0 <= t < i ==> chars@[t] != ':',
        decreases chars.len() - i,
    {
        if chars[i] == ':' {
            let mut left: Vec<char> = Vec::new();
            let mut t: usize = 0;
            while t < i
                invariant
                    t <= i < chars@.len(),
                    left@ == chars@.subrange(0, t as int),
                decreases i - t,
            {
                left.push(chars[t]);
                proof {
                    assert(chars@.subrange(0, t as int).push(chars@[t as int]) =~= chars@.subrange(
                        0,
                        t as int + 1,
                    ));
                }
                t = t + 1;
            }
            let mut right: Vec<char> = Vec::new();
            let mut u: usize = i + 1;
            while u < chars.len()
                invariant
                    i < chars@.len(),
                    i + 1 <= u <= chars@.len(),
                    right@ == chars@.subrange(i as int + 1, u as int),
                decreases chars.len() - u,
            {
                right.push(chars[u]);
                proof {
                    assert(chars@.subrange(i as int + 1, u as int).push(chars@[u as int])
                        =~= chars@.subrange(i as int + 1, u as int + 1));
                }
                u = u + 1;
            }
            proof {
                let wi = choose|w: int|
                    0 <= w < key@.len() && key@[w] == ':' && forall|t2: int|
                        0 <= t2 < w ==> key@[t2] != ':';
                assert(wi == i as int) by {
                    if wi < i as int {
                        assert(key@[wi] != ':');
                    }
                    if wi > i as int {
                        assert(key@[i as int] != ':');
                    }
                }
            }
            return Some((chars_to_string(&left), chars_to_string(&right)));
        }
        i = i + 1;
    }
    None
}

/// Processes a message that may be a command: `/commands` lists the
/// available commands, `/new` clears the sender's session and confirms;
/// anything else is not a command and leaves the sessions alone.
pub fn process_command(store: &mut SessionStore, channel: &str, user_id: &str, text: &str) -> (r:
    CommandResult)
    ensures
        spec_trim(text@) == "/commands"@ ==> (r matches CommandResult::Response(m) && m@
            == "Available commands:\n\n/commands - Show available commands\n/new - Start a new conversation"@
            && final(store).entries@ == old(store).entries@),
        spec_trim(text@) == "/new"@ ==> (r matches CommandResult::Response(m) && m@
            == "Starting fresh! Our previous conversation has been cleared."@
            && final(store).entries@ == old(store).entries@.filter(
            keeps_key(spec_session_key(channel@, user_id@)),
        )),
        spec_trim(text@) != "/commands"@ && spec_trim(text@) != "/new"@ ==> (r is NotACommand
            && final(store).entries@ == old(store).entries@),
{
    proof {
        reveal_strlit("/commands");
        reveal_strlit("/new");
        assert("/commands"@ != "/new"@) by {
            assert("/commands"@.len() == 9);
            assert("/new"@.len() == 4);
        }
    }
    let trimmed_chars = trim_chars(&str_to_chars(text));
    let trimmed = chars_to_string(&trimmed_chars);
    if str_eq(trimmed.as_str(), "/commands") {
        return CommandResult::Response(
            String::from_str(
                "Available commands:\n\n/commands - Show available commands\n/new - Start a new conversation",
            ),
        );
    }
    if str_eq(trimmed.as_str(), "/new") {
        let key = session_key(channel, user_id);
        store.remove(key.as_str());
        return CommandResult::Response(
            String::from_str("Starting fresh! Our previous conversation has been cleared."),
        );
    }
    CommandResult::NotACommand
}

/// Information about a channel for display purposes.
pub struct ChannelInfo {
    pub name: &'static str,
    pub display_name: &'static str,
}

/// Looks a supported channel up by name.
pub fn get_channel_info(name: &str) -> (r: Option<ChannelInfo>)
    ensures
        name@ == "telegram"@ ==> (r matches Some(c) && c.name@ == "telegram"@ && c.display_name@
            == "Telegram"@),
        name@ == "signal"@ ==> (r matches Some(c) && c.name@ == "signal"@ && c.display_name@
            == "Signal"@),
        name@ != "telegram"@ && name@ != "signal"@ ==> r is None,
{
    proof {
        reveal_strlit("telegram");
        reveal_strlit("signal");
    }
    if str_eq(name, "telegram") {
        Some(ChannelInfo { name: "telegram", display_name: "Telegram" })
    } else if str_eq(name, "signal") {
        Some(ChannelInfo { name: "signal", display_name: "Signal" })
    } else {
        None
    }
}

/// Re-indexes one user's memories after a conversation turn, swallowing
/// any failure: a broken index never interrupts the conversation flow.
/// Whether or not the pass succeeded, rows of keys outside the given
/// documents — other files and other tenants — are untouched.
pub fn reindex_user_memories<P: EmbeddingProvider>(
    index: &mut MemoryIndex,
    channel: &str,
    user_id: &str,
    docs: &Vec<MemoryDocument>,
    provider: &mut P,
)
    requires
        forall|i: int, j: int|
            #![trigger docs@[i].path@, docs@[j].path@]
            0 <= i < j < docs@.len() ==> docs@[i].path@ != docs@[j].path@,
    ensures
        forall|k: (Seq<char>, Seq<char>, Seq<char>)|
            !crate::memory::is_doc_key(channel@, user_id@, docs@, k) ==> #[trigger] crate::memory::db_same_at(
                old(index).db,
                final(index).db,
                k,
            ),
        forall|i: int|
            0 <= i < docs@.len() && crate::memory::doc_unchanged(
                old(index).db,
                channel@,
                user_id@,
                #[trigger] docs@[i],
            ) ==> crate::memory::db_same_at(
                old(index).db,
                final(index).db,
                (channel@, user_id@, docs@[i].path@),
            ),
{
    let _ = index.index_user_memories(channel, user_id, docs, provider);
}

} // verus!
