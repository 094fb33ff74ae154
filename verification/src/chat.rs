//! The operator's command line.
//!
//! Commands are read one per line:
//!
//! - `msg <id> <text>` sends a message to one destination,
//! - `broadcast <text>` sends it to every known destination,
//! - `list` shows the known destinations,
//! - `status` shows the node's status,
//! - `help` shows the list of commands.
//!
//! Command words are matched without regard to case; `m`, `b`, `l`, `s` and
//! `h` are short for them.

use crate::addr_map::AddrMap;
use crate::hash::AddressHash;
use crate::text::decimal;
use crate::text::hex;
use crate::text::push_decimal;
use crate::text::push_hex;
use crate::text::chars_of;
use crate::text::begins_with;
use crate::text::lower;
use crate::text::skip_leading_space;
use crate::text::skip_trailing_space;
use crate::text::spells;
use crate::text::trim;
use crate::text::push_text;
use crate::text::string_of;
use crate::text::string_from_utf8;
use crate::time::age;
use crate::time::age_us;
use crate::time::later;
use crate::time::later_of;
use crate::time::seconds_in;
use crate::time::whole_secs;
use crate::time::MonotonicClock;
use crate::time::MICROS_PER_SEC;
use vstd::utf8::decode_utf8;
use vstd::utf8::valid_utf8;
use vstd::prelude::*;
use vstd::string::*;

verus! {

/// Help text for the available commands.
pub const HELP_TEXT: &'static str = "
Available commands:
  msg <id> <text>    Send message to destination (by index or hash prefix)
  broadcast <text>   Send message to all known destinations
  list               Show known destinations
  status             Show node status
  help               Show this help

Shortcuts: m=msg, b=broadcast, l=list, s=status, h=help

Examples:
  msg 0 Hello!       Send \"Hello!\" to destination [0]
  msg a1b2 Hi        Send \"Hi\" to destination starting with \"a1b2\"
  broadcast Anyone?  Send to all known destinations
";

/// A parsed command.
#[derive(Debug)]
pub enum ChatCommand {
    /// Send a message to one destination.
    Message {
        /// Index or hash prefix of the destination.
        dest_id: String,
        /// The message.
        text: String,
    },
    /// Send a message to every known destination.
    Broadcast {
        /// The message.
        text: String,
    },
    /// List the known destinations.
    List,
    /// Show the node's status.
    Status,
    /// Show the help text.
    Help,
    /// Not a command; the text says why and is empty for an empty line.
    Unknown(String),
}

/// A parsed command as plain values.
pub enum CommandModel {
    /// Send a message to one destination.
    Message {
        /// Index or hash prefix of the destination.
        dest_id: Seq<char>,
        /// The message.
        text: Seq<char>,
    },
    /// Send a message to every known destination.
    Broadcast {
        /// The message.
        text: Seq<char>,
    },
    /// List the known destinations.
    List,
    /// Show the node's status.
    Status,
    /// Show the help text.
    Help,
    /// Not a command.
    Unknown(Seq<char>),
}

impl View for ChatCommand {
    type V = CommandModel;

    open spec fn view(&self) -> CommandModel {
        match *self {
            ChatCommand::Message { dest_id, text } => CommandModel::Message {
                dest_id: dest_id@,
                text: text@,
            },
            ChatCommand::Broadcast { text } => CommandModel::Broadcast { text: text@ },
            ChatCommand::List => CommandModel::List,
            ChatCommand::Status => CommandModel::Status,
            ChatCommand::Help => CommandModel::Help,
            ChatCommand::Unknown(why) => CommandModel::Unknown(why@),
        }
    }
}

/// The text up to its first blank; all of it if it has none.
pub open spec fn before_blank(s: Seq<char>) -> Seq<char>
    decreases s.len(),
{
    if s.len() == 0 || s[0] == ' ' {
        Seq::empty()
    } else {
        seq![s[0]] + before_blank(s.skip(1))
    }
}

/// The text behind its first blank; nothing if it has none.
pub open spec fn after_blank(s: Seq<char>) -> Seq<char>
    decreases s.len(),
{
    if s.len() == 0 {
        Seq::empty()
    } else if s[0] == ' ' {
        s.skip(1)
    } else {
        after_blank(s.skip(1))
    }
}

/// The command that a line of input stands for.
pub open spec fn parse_model(line: Seq<char>) -> CommandModel {
    let input = trim(line);
    if input.len() == 0 {
        CommandModel::Unknown(Seq::empty())
    } else {
        let word = before_blank(input);
        let args = trim(after_blank(input));
        let name = lower(word);
        if name == "msg"@ || name == "m"@ || name == "send"@ {
            let dest_id = before_blank(args);
            let text = after_blank(args);
            if dest_id.len() == 0 || text.len() == 0 {
                CommandModel::Unknown("Usage: msg <dest_id> <message>"@)
            } else {
                CommandModel::Message { dest_id, text }
            }
        } else if name == "broadcast"@ || name == "bc"@ || name == "b"@ {
            if args.len() == 0 {
                CommandModel::Unknown("Usage: broadcast <message>"@)
            } else {
                CommandModel::Broadcast { text: args }
            }
        } else if name == "list"@ || name == "ls"@ || name == "l"@ {
            CommandModel::List
        } else if name == "status"@ || name == "stat"@ || name == "s"@ {
            CommandModel::Status
        } else if name == "help"@ || name == "h"@ || name == "?"@ {
            CommandModel::Help
        } else {
            CommandModel::Unknown("Unknown command: "@ + word + ". Type 'help' for commands."@)
        }
    }
}

/// Index of the first blank in `chars[from..to]`, or `to` if there is none.
pub fn find_blank(chars: &Vec<char>, from: usize, to: usize) -> (at: usize)
    requires
        from <= to <= chars@.len(),
    ensures
        from <= at <= to,
        chars@.subrange(from as int, at as int) == before_blank(
            chars@.subrange(from as int, to as int),
        ),
        at < to ==> chars@.subrange(at + 1, to as int) == after_blank(
            chars@.subrange(from as int, to as int),
        ),
        at == to ==> after_blank(chars@.subrange(from as int, to as int)) == Seq::<char>::empty(),
{
    let mut at = from;
    while at < to && chars[at] != ' '
        invariant
            from <= at <= to <= chars@.len(),
            before_blank(chars@.subrange(from as int, to as int)) == chars@.subrange(
                from as int,
                at as int,
            ) + before_blank(chars@.subrange(at as int, to as int)),
            after_blank(chars@.subrange(from as int, to as int)) == after_blank(
                chars@.subrange(at as int, to as int),
            ),
        decreases to - at,
    {
        proof {
            let rest = chars@.subrange(at as int, to as int);
            assert(rest.skip(1) =~= chars@.subrange(at + 1, to as int));
            assert(chars@.subrange(from as int, at as int) + (seq![rest[0]] + before_blank(
                rest.skip(1),
            )) =~= chars@.subrange(from as int, at + 1) + before_blank(rest.skip(1)));
        }
        at = at + 1;
    }
    proof {
        let rest = chars@.subrange(at as int, to as int);
        assert(before_blank(rest) =~= Seq::<char>::empty());
        assert(chars@.subrange(from as int, at as int) + Seq::<char>::empty() =~= chars@.subrange(
            from as int,
            at as int,
        ));
        if at < to {
            assert(rest.skip(1) =~= chars@.subrange(at + 1, to as int));
        }
    }
    at
}

impl ChatCommand {
    /// Parses a line of input.
    pub fn parse(input: &str) -> (command: Self)
        ensures
            command@ == parse_model(input@),
    {
        let chars = chars_of(input);
        let ghost line = chars@;
        assert(line.subrange(0, line.len() as int) =~= line);
        let start = skip_leading_space(&chars, 0, chars.len());
        let end = skip_trailing_space(&chars, start, chars.len());
        let ghost trimmed = chars@.subrange(start as int, end as int);
        assert(trimmed == trim(line));
        if start == end {
            return ChatCommand::Unknown(String::new());
        }
        let blank = find_blank(&chars, start, end);
        let (args_from, args_to) = if blank < end {
            let a = skip_leading_space(&chars, blank + 1, end);
            let b = skip_trailing_space(&chars, a, end);
            (a, b)
        } else {
            (end, end)
        };
        let ghost word = chars@.subrange(start as int, blank as int);
        let ghost args = chars@.subrange(args_from as int, args_to as int);
        proof {
            assert(word == before_blank(trimmed));
            if blank == end {
                assert(args =~= Seq::<char>::empty());
                assert(trim(Seq::<char>::empty()) =~= Seq::<char>::empty());
            }
            assert(args == trim(after_blank(trimmed)));
        }
        if spells(&chars, start, blank, "msg") || spells(&chars, start, blank, "m") || spells(
            &chars,
            start,
            blank,
            "send",
        ) {
            let split = find_blank(&chars, args_from, args_to);
            if split == args_from || split >= args_to || split + 1 == args_to {
                return ChatCommand::Unknown(String::from_str("Usage: msg <dest_id> <message>"));
            }
            let dest_id = string_of(&chars, args_from, split);
            let text = string_of(&chars, split + 1, args_to);
            ChatCommand::Message { dest_id, text }
        } else if spells(&chars, start, blank, "broadcast") || spells(&chars, start, blank, "bc")
            || spells(&chars, start, blank, "b") {
            if args_from == args_to {
                ChatCommand::Unknown(String::from_str("Usage: broadcast <message>"))
            } else {
                ChatCommand::Broadcast { text: string_of(&chars, args_from, args_to) }
            }
        } else if spells(&chars, start, blank, "list") || spells(&chars, start, blank, "ls")
            || spells(&chars, start, blank, "l") {
            ChatCommand::List
        } else if spells(&chars, start, blank, "status") || spells(&chars, start, blank, "stat")
            || spells(&chars, start, blank, "s") {
            ChatCommand::Status
        } else if spells(&chars, start, blank, "help") || spells(&chars, start, blank, "h")
            || spells(&chars, start, blank, "?") {
            ChatCommand::Help
        } else {
            let mut why = String::from_str("Unknown command: ");
            let name = string_of(&chars, start, blank);
            push_text(&mut why, name.as_str());
            push_text(&mut why, ". Type 'help' for commands.");
            ChatCommand::Unknown(why)
        }
    }
}

/// Maximum number of known destinations.
pub const MAX_KNOWN_DESTINATIONS: usize = 100;

/// Number of hexadecimal digits of a hash that are shown.
pub const DISPLAY_HASH_CHARS: usize = 8;

/// The short form of a hash: its first four bytes as eight lower-case
/// hexadecimal digits.
pub open spec fn short_hash(hash: AddressHash) -> Seq<char> {
    hex(hash@, 4)
}

/// Computes [`short_hash`].
pub fn format_hash_short(hash: &AddressHash) -> (s: String)
    ensures
        s@ == short_hash(*hash),
{
    let mut s = String::new();
    push_hex(&mut s, hash.as_slice(), 4);
    assert(s@ =~= short_hash(*hash));
    s
}

/// The line that shows an incoming message: the sender's short hash in
/// brackets, then the text, or the number of bytes if they are not text.
pub open spec fn incoming_text(sender: AddressHash, message: Seq<u8>) -> Seq<char> {
    if valid_utf8(message) {
        "["@ + short_hash(sender) + "]: "@ + decode_utf8(message)
    } else {
        "["@ + short_hash(sender) + "]: <binary "@ + decimal(message.len()) + " bytes>"@
    }
}

/// Formats an incoming message for display.
pub fn format_incoming_message(sender_hash: &AddressHash, message: &[u8]) -> (s: String)
    ensures
        s@ == incoming_text(*sender_hash, message@),
{
    let mut s = String::from_str("[");
    push_hex(&mut s, sender_hash.as_slice(), 4);
    match string_from_utf8(message) {
        Some(text) => {
            push_text(&mut s, "]: ");
            push_text(&mut s, text.as_str());
        },
        None => {
            push_text(&mut s, "]: <binary ");
            push_decimal(&mut s, message.len() as u64);
            push_text(&mut s, " bytes>");
        },
    }
    assert(s@ =~= incoming_text(*sender_hash, message@));
    s
}

/// The value of a string of decimal digits; `None` if there is no digit or
/// something that is no digit.
pub open spec fn digits_value(s: Seq<char>) -> Option<nat>
    decreases s.len(),
{
    if s.len() == 0 {
        None
    } else if !('0' <= s.last() <= '9') {
        None
    } else if s.len() == 1 {
        Some((s.last() as u8 - 48) as nat)
    } else {
        match digits_value(s.drop_last()) {
            Some(v) => Some(v * 10 + (s.last() as u8 - 48) as nat),
            None => None,
        }
    }
}

/// The index that a piece of text names: decimal digits, possibly behind a
/// plus sign, whose value fits `usize`.
pub open spec fn parse_index(s: Seq<char>) -> Option<nat> {
    let digits = if s.len() > 0 && s[0] == '+' {
        s.skip(1)
    } else {
        s
    };
    match digits_value(digits) {
        Some(v) => if v <= usize::MAX {
            Some(v)
        } else {
            None
        },
        None => None,
    }
}

/// Computes [`parse_index`].
pub fn parse_index_of(chars: &Vec<char>) -> (r: Option<usize>)
    ensures
        match r {
            Some(v) => parse_index(chars@) == Some(v as nat),
            None => parse_index(chars@) is None,
        },
{
    let from: usize = if chars.len() > 0 && chars[0] == '+' {
        1
    } else {
        0
    };
    let ghost digits = chars@.skip(from as int);
    assert(chars@.skip(0) =~= chars@);
    if from == chars.len() {
        return None;
    }
    let mut value: usize = 0;
    let mut i: usize = from;
    // `over` is set once the digits read so far exceed the range of usize
    let mut over = false;
    while i < chars.len()
        invariant
            from <= i <= chars@.len(),
            from < chars@.len(),
            digits == chars@.skip(from as int),
            parse_index(chars@) == (match digits_value(digits) {
                Some(v) => if v <= usize::MAX {
                    Some(v)
                } else {
                    None
                },
                None => None,
            }),
            i > from ==> digits_value(digits.take(i - from)) is Some,
            i > from && !over ==> digits_value(digits.take(i - from)) == Some(value as nat),
            i > from && over ==> digits_value(digits.take(i - from))->Some_0 > usize::MAX,
            i == from ==> value == 0 && !over,
        decreases chars@.len() - i,
    {
        let c = chars[i];
        let ghost next = digits.take(i - from + 1);
        proof {
            assert(next.drop_last() =~= digits.take(i - from));
            assert(next.last() == c);
        }
        if !('0' <= c && c <= '9') {
            proof {
                assert(digits[i - from] == c);
                lemma_not_digits(digits, i - from);
            }
            return None;
        }
        let d = (c as u8 - 48) as usize;
        if !over {
            if value > (usize::MAX - d) / 10 {
                over = true;
                assert(value * 10 + d > usize::MAX);
            } else {
                value = value * 10 + d;
            }
        } else {
            assert(digits_value(next)->Some_0 >= digits_value(next.drop_last())->Some_0);
        }
        i = i + 1;
    }
    assert(digits.take(i - from) =~= digits);
    if over {
        None
    } else {
        Some(value)
    }
}

/// Text with something that is no digit has no value.
proof fn lemma_not_digits(s: Seq<char>, at: int)
    requires
        0 <= at < s.len(),
        !('0' <= s[at] <= '9'),
    ensures
        digits_value(s) is None,
    decreases s.len(),
{
    if at < s.len() - 1 {
        lemma_not_digits(s.drop_last(), at);
    }
}

/// A destination known from an announce.
pub struct KnownDestination<D> {
    /// The destination's address hash.
    pub hash: AddressHash,
    /// What is needed to open a link to the destination.
    pub descriptor: D,
    /// When an announce of the destination was last seen.
    pub last_seen: u64,
    /// The name shown to the operator: the short form of the hash.
    pub display_name: String,
}

impl<D> KnownDestination<D> {
    /// A destination whose announce is seen at `now`.
    pub fn new(hash: AddressHash, descriptor: D, now: u64) -> (d: Self)
        ensures
            d.hash == hash,
            d.descriptor == descriptor,
            d.last_seen == now,
            d.display_name@ == short_hash(hash),
    {
        KnownDestination { hash, descriptor, last_seen: now, display_name: format_hash_short(&hash) }
    }

    /// Whole seconds since the destination was last seen, at `now`.
    pub fn seconds_ago(&self, now: u64) -> (s: u64)
        ensures
            s == age(now, self.last_seen) / (MICROS_PER_SEC as nat),
    {
        whole_secs(age_us(now, self.last_seen))
    }
}

/// Index of the destination that was seen least recently; the first such
/// destination on a tie.
pub open spec fn least_recent<D>(known: Seq<KnownDestination<D>>) -> int
    decreases known.len(),
{
    if known.len() <= 1 {
        0
    } else {
        let j = least_recent(known.drop_last());
        if known.last().last_seen < known[j].last_seen {
            known.len() - 1
        } else {
            j
        }
    }
}

/// The destination seen least recently is one of the list.
pub proof fn lemma_least_recent<D>(known: Seq<KnownDestination<D>>)
    requires
        known.len() > 0,
    ensures
        0 <= least_recent(known) < known.len(),
        forall|i: int|
            0 <= i < known.len() ==> known[least_recent(known)].last_seen <= (
            #[trigger] known[i]).last_seen,
    decreases known.len(),
{
    if known.len() > 1 {
        let rest = known.drop_last();
        lemma_least_recent(rest);
        let j = least_recent(rest);
        assert(rest[j] == known[j]);
        assert forall|i: int| 0 <= i < known.len() implies known[least_recent(known)].last_seen <= (
        #[trigger] known[i]).last_seen by {
            if i < rest.len() {
                assert(rest[i] == known[i]);
            }
        }
    }
}

/// Index of the destination with the given hash, if it is known.
pub open spec fn index_of_hash<D>(known: Seq<KnownDestination<D>>, hash: AddressHash) -> Option<
    int,
>
    decreases known.len(),
{
    if known.len() == 0 {
        None
    } else {
        match index_of_hash(known.drop_last(), hash) {
            Some(i) => Some(i),
            None => if known.last().hash == hash {
                Some(known.len() - 1)
            } else {
                None
            },
        }
    }
}

/// Where `index_of_hash` points, the hash is found, and nowhere before; it
/// points nowhere exactly when the hash is not in the list.
pub proof fn lemma_index_of_hash<D>(known: Seq<KnownDestination<D>>, hash: AddressHash)
    ensures
        match index_of_hash(known, hash) {
            Some(i) => 0 <= i < known.len() && known[i].hash == hash && forall|j: int|
                0 <= j < i ==> (#[trigger] known[j]).hash != hash,
            None => forall|j: int| 0 <= j < known.len() ==> (#[trigger] known[j]).hash != hash,
        },
    decreases known.len(),
{
    if known.len() > 0 {
        let rest = known.drop_last();
        lemma_index_of_hash(rest, hash);
        match index_of_hash(rest, hash) {
            Some(i) => {
                assert(rest[i] == known[i]);
                assert forall|j: int| 0 <= j < i implies (#[trigger] known[j]).hash != hash by {
                    assert(rest[j] == known[j]);
                }
            },
            None => {
                assert forall|j: int| 0 <= j < known.len() - 1 implies (#[trigger] known[j]).hash
                    != hash by {
                    assert(rest[j] == known[j]);
                }
            },
        }
    }
}

/// Index of the first destination whose name begins with `prefix`.
pub open spec fn index_of_prefix<D>(known: Seq<KnownDestination<D>>, prefix: Seq<char>) -> Option<
    int,
>
    decreases known.len(),
{
    if known.len() == 0 {
        None
    } else {
        match index_of_prefix(known.drop_last(), prefix) {
            Some(i) => Some(i),
            None => if prefix.is_prefix_of(known.last().display_name@) {
                Some(known.len() - 1)
            } else {
                None
            },
        }
    }
}

/// The list without entry `i`, whose place the last entry takes.
pub open spec fn swap_removed<A>(list: Seq<A>, i: int) -> Seq<A> {
    list.update(i, list.last()).drop_last()
}

/// `after` is what the list `before` becomes when an announce of `hash` is
/// seen at `now`: a known destination is marked as seen; a new one is
/// appended, after the destination seen least recently was evicted from a
/// full list.
pub open spec fn announced<D>(
    before: Seq<KnownDestination<D>>,
    after: Seq<KnownDestination<D>>,
    hash: AddressHash,
    descriptor: D,
    now: u64,
) -> bool {
    match index_of_hash(before, hash) {
        Some(i) => {
            &&& after.len() == before.len()
            &&& after[i].last_seen == later(now, before[i].last_seen)
            &&& after[i].hash == hash
            &&& after[i].descriptor == before[i].descriptor
            &&& after[i].display_name == before[i].display_name
            &&& forall|j: int| 0 <= j < before.len() && j != i ==> #[trigger] after[j] == before[j]
        },
        None => {
            let base = if before.len() >= MAX_KNOWN_DESTINATIONS {
                swap_removed(before, least_recent(before))
            } else {
                before
            };
            &&& after.len() == base.len() + 1
            &&& after.drop_last() == base
            &&& after.last().hash == hash
            &&& after.last().descriptor == descriptor
            &&& after.last().last_seen == now
            &&& after.last().display_name@ == short_hash(hash)
        },
    }
}

/// The line that lists one destination.
pub open spec fn entry_line(index: nat, name: Seq<char>, seconds_ago: nat) -> Seq<char> {
    "  ["@ + decimal(index) + "] "@ + name + " (seen "@ + decimal(seconds_ago) + "s ago)\n"@
}

/// Formats the line that lists one destination.
pub fn format_entry_line(index: usize, name: &str, seconds_ago: u64) -> (s: String)
    ensures
        s@ == entry_line(index as nat, name@, seconds_ago as nat),
{
    let mut s = String::from_str("  [");
    push_decimal(&mut s, index as u64);
    push_text(&mut s, "] ");
    push_text(&mut s, name);
    push_text(&mut s, " (seen ");
    push_decimal(&mut s, seconds_ago);
    push_text(&mut s, "s ago)\n");
    assert(s@ =~= entry_line(index as nat, name@, seconds_ago as nat));
    s
}

/// The lines that list the first `count` destinations.
pub open spec fn list_lines<D>(known: Seq<KnownDestination<D>>, now: u64, count: int) -> Seq<char>
    decreases count,
{
    if count <= 0 {
        Seq::empty()
    } else {
        list_lines(known, now, count - 1) + entry_line(
            (count - 1) as nat,
            known[count - 1].display_name@,
            age(now, known[count - 1].last_seen) / (MICROS_PER_SEC as nat),
        )
    }
}

/// The text that lists the known destinations at `now`.
pub open spec fn list_text<D>(known: Seq<KnownDestination<D>>, now: u64) -> Seq<char> {
    if known.len() == 0 {
        "No known destinations. Wait for announces..."@
    } else {
        "Known destinations:\n"@ + list_lines(known, now, known.len() as int)
    }
}

/// The text that shows the node's status.
pub open spec fn status_text(identity: Seq<char>, uptime_secs: u64, known: nat) -> Seq<char> {
    "Node Status:\n  Identity: "@ + identity + "\n  Uptime: "@ + decimal(uptime_secs as nat)
        + "s\n  Known destinations: "@ + decimal(known) + "\n"@
}

/// The known destinations and what the operator is shown of them.
///
/// At most [`MAX_KNOWN_DESTINATIONS`] destinations are kept, each hash once.
/// A new destination pushes out the one seen least recently when the list is
/// full; the last destination of the list takes the freed place.
pub struct ChatState<D> {
    /// Our own identity hash, for display.
    identity_hash: String,
    destinations: Vec<KnownDestination<D>>,
    /// Where in the list each hash stands.
    hash_to_index: AddrMap<usize>,
    clock: MonotonicClock,
}

impl<D> ChatState<D> {
    /// The known destinations, in the order of their indices.
    pub closed spec fn known(&self) -> Seq<KnownDestination<D>> {
        self.destinations@
    }

    /// Our own identity hash.
    pub closed spec fn identity(&self) -> Seq<char> {
        self.identity_hash@
    }

    /// The lookup index: the position of every known hash in the list.
    pub closed spec fn index(&self) -> Map<AddressHash, usize> {
        self.hash_to_index@
    }

    /// The lookup index is a well-formed map.
    pub closed spec fn index_wf(&self) -> bool {
        self.hash_to_index.wf()
    }

    /// The list is within its bound, no hash occurs twice, every name is the
    /// short form of its hash, and the lookup index holds exactly the
    /// position of every destination.
    pub open spec fn wf(&self) -> bool {
        &&& self.known().len() <= MAX_KNOWN_DESTINATIONS
        &&& forall|i: int, j: int|
            0 <= i < j < self.known().len() ==> (#[trigger] self.known()[i]).hash != (
            #[trigger] self.known()[j]).hash
        &&& forall|i: int|
            0 <= i < self.known().len() ==> (#[trigger] self.known()[i]).display_name@
                == short_hash(self.known()[i].hash)
        &&& self.index_wf()
        &&& forall|i: int|
            0 <= i < self.known().len() ==> self.index().contains_key(
                (#[trigger] self.known()[i]).hash,
            ) && self.index()[self.known()[i].hash] == i
        &&& forall|k: AddressHash| #[trigger]
            self.index().contains_key(k) ==> self.index()[k] < self.known().len()
                && self.known()[self.index()[k] as int].hash == k
    }

    /// No destination is known yet; the uptime counts from now.
    pub fn new(identity_hash: String) -> (s: Self)
        ensures
            s.wf(),
            s.known().len() == 0,
            s.identity() == identity_hash@,
    {
        ChatState {
            identity_hash,
            destinations: Vec::new(),
            hash_to_index: AddrMap::new(),
            clock: MonotonicClock::new(),
        }
    }

    /// The clock that the state reads. A time that is handed to the state
    /// is a reading of this clock.
    pub closed spec fn spec_clock(&self) -> MonotonicClock {
        self.clock
    }

    /// The clock that the state reads.
    pub fn clock(&self) -> (c: &MonotonicClock)
        ensures
            *c == self.spec_clock(),
    {
        &self.clock
    }

    /// Our own identity hash.
    pub fn identity_hash(&self) -> (s: &str)
        ensures
            s@ == self.identity(),
    {
        self.identity_hash.as_str()
    }

    /// All known destinations.
    pub fn all_destinations(&self) -> (all: &Vec<KnownDestination<D>>)
        ensures
            all@ == self.known(),
    {
        &self.destinations
    }

    /// Index of the destination with the given hash, looked up in the
    /// index.
    pub fn find_hash(&self, hash: &AddressHash) -> (r: Option<usize>)
        requires
            self.wf(),
        ensures
            match r {
                Some(i) => index_of_hash(self.known(), *hash) == Some(i as int) && i
                    < self.known().len() && self.known()[i as int].hash == *hash,
                None => index_of_hash(self.known(), *hash) is None && forall|j: int|
                    0 <= j < self.known().len() ==> (#[trigger] self.known()[j]).hash != *hash,
            },
    {
        match self.hash_to_index.get(hash) {
            Some(at) => {
                proof {
                    lemma_index_of_hash(self.known(), *hash);
                }
                Some(*at)
            },
            None => {
                proof {
                    lemma_index_of_hash(self.known(), *hash);
                }
                None
            },
        }
    }

    /// Index of the destination that was seen least recently.
    pub fn find_oldest(&self) -> (o: usize)
        requires
            self.known().len() > 0,
        ensures
            o == least_recent(self.known()),
            o < self.known().len(),
    {
        let ghost all = self.destinations@;
        let mut o: usize = 0;
        let mut i: usize = 1;
        assert(all.take(1).len() == 1);
        while i < self.destinations.len()
            invariant
                all == self.destinations@,
                1 <= i <= all.len(),
                0 <= o < i,
                o == least_recent(all.take(i as int)),
            decreases all.len() - i,
        {
            assert(all.take(i + 1).drop_last() =~= all.take(i as int));
            assert(all.take(i + 1).last() == all[i as int]);
            assert(all.take(i + 1)[o as int] == all[o as int]);
            if self.destinations[i].last_seen < self.destinations[o].last_seen {
                o = i;
            }
            i = i + 1;
        }
        assert(all.take(i as int) =~= all);
        o
    }

    /// Evicts the destination that was seen least recently; the last
    /// destination of the list takes its place.
    pub fn evict_oldest(&mut self)
        requires
            old(self).wf(),
        ensures
            final(self).wf(),
            final(self).identity() == old(self).identity(),
            old(self).known().len() == 0 ==> final(self).known() == old(self).known(),
            old(self).known().len() > 0 ==> final(self).known() == swap_removed(
                old(self).known(),
                least_recent(old(self).known()),
            ),
    {
        if self.destinations.len() == 0 {
            return ;
        }
        let o = self.find_oldest();
        let ghost before = self.destinations@;
        let ghost index0 = self.hash_to_index@;
        let last = self.destinations.len() - 1;
        let oldest_hash = self.destinations[o].hash;
        let ghost last_hash = before[last as int].hash;
        if o != last {
            // the last destination is about to move to the freed place
            let moved = self.destinations[last].hash;
            self.hash_to_index.insert(moved, o);
        }
        self.destinations.swap_remove(o);
        self.hash_to_index.remove(&oldest_hash);
        proof {
            assert(self.destinations@ =~= swap_removed(before, o as int));
            let after = self.destinations@;
            let index1 = self.hash_to_index@;
            assert forall|i: int| 0 <= i < after.len() implies index1.contains_key(
                (#[trigger] after[i]).hash,
            ) && index1[after[i].hash] == i by {
                if i == o {
                    assert(after[i] == before[last as int]);
                    assert(before[o as int].hash != before[last as int].hash);
                } else {
                    assert(after[i] == before[i]);
                    if i < o {
                        assert(before[i].hash != before[o as int].hash);
                    } else {
                        assert(before[o as int].hash != before[i].hash);
                    }
                    assert(before[i].hash != before[last as int].hash);
                    assert(index0.contains_key(before[i].hash));
                }
            }
            assert forall|k: AddressHash| #[trigger] index1.contains_key(k) implies index1[k]
                < after.len() && after[index1[k] as int].hash == k by {
                if o != last && k == last_hash {
                    assert(after[o as int] == before[last as int]);
                } else {
                    assert(index0.contains_key(k));
                    let j = index0[k] as int;
                    assert(before[j].hash == k);
                    assert(j != o);
                    assert(j != last);
                    assert(after[j] == before[j]);
                }
            }
            assert forall|i: int, j: int| 0 <= i < j < after.len() implies (
            #[trigger] after[i]).hash != (#[trigger] after[j]).hash by {
                assert(index1[after[i].hash] == i && index1[after[j].hash] == j);
            }
            assert forall|i: int| 0 <= i < after.len() implies (#[trigger] after[i]).display_name@
                == short_hash(after[i].hash) by {
                let i0 = if i == o {
                    before.len() - 1
                } else {
                    i
                };
                assert(after[i] == before[i0]);
            }
        }
    }

    /// Takes in an announce of a destination seen at `now`; says whether the
    /// destination is new.
    ///
    /// A known destination is only marked as seen. A new one is appended;
    /// if the list is full, the destination seen least recently is evicted
    /// first.
    pub fn add_destination_at(&mut self, hash: AddressHash, descriptor: D, now: u64) -> (added: bool)
        requires
            old(self).wf(),
        ensures
            final(self).wf(),
            final(self).identity() == old(self).identity(),
            added == (index_of_hash(old(self).known(), hash) is None),
            announced(old(self).known(), final(self).known(), hash, descriptor, now),
    {
        match self.find_hash(&hash) {
            Some(i) => {
                let ghost before = self.destinations@;
                let mut entry = self.destinations.remove(i);
                entry.last_seen = later_of(now, entry.last_seen);
                self.destinations.insert(i, entry);
                assert(self.destinations@.len() == before.len());
                proof {
                    let after = self.destinations@;
                    assert forall|j: int| 0 <= j < before.len() && j != i implies #[trigger] after[j]
                        == before[j] by {}
                    assert forall|a: int| 0 <= a < after.len() implies (#[trigger] after[a]).hash
                        == before[a].hash && after[a].display_name == before[a].display_name by {}
                    assert forall|a: int, b: int| 0 <= a < b < after.len() implies (
                    #[trigger] after[a]).hash != (#[trigger] after[b]).hash by {
                        assert(after[a].hash == before[a].hash && after[b].hash == before[b].hash);
                    }
                    assert forall|a: int| 0 <= a < after.len() implies self.index().contains_key(
                        (#[trigger] after[a]).hash,
                    ) && self.index()[after[a].hash] == a by {
                        assert(after[a].hash == before[a].hash);
                    }
                    assert forall|k: AddressHash| #[trigger]
                        self.index().contains_key(k) implies self.index()[k] < after.len()
                        && after[self.index()[k] as int].hash == k by {
                        let j = self.index()[k] as int;
                        assert(after[j].hash == before[j].hash);
                    }
                }
                false
            },
            None => {
                if self.destinations.len() >= MAX_KNOWN_DESTINATIONS {
                    self.evict_oldest();
                }
                let ghost base = self.destinations@;
                proof {
                    if old(self).known().len() > 0 {
                        lemma_least_recent(old(self).known());
                    }
                }
                proof {
                    // the hash is still unknown after the eviction
                    assert forall|j: int| 0 <= j < base.len() implies (#[trigger] base[j]).hash
                        != hash by {
                        if old(self).known().len() >= MAX_KNOWN_DESTINATIONS {
                            let o = least_recent(old(self).known());
                            lemma_least_recent(old(self).known());
                            let j0 = if j == o {
                                old(self).known().len() - 1
                            } else {
                                j
                            };
                            assert(base[j] == old(self).known()[j0]);
                        }
                    }
                }
                assert(self.wf());
                let ghost index0 = self.index();
                let at = self.destinations.len();
                self.destinations.push(KnownDestination::new(hash, descriptor, now));
                self.hash_to_index.insert(hash, at);
                proof {
                    let after = self.destinations@;
                    assert(after.drop_last() =~= base);
                    assert(!index0.contains_key(hash)) by {
                        if index0.contains_key(hash) {
                            assert(base[index0[hash] as int].hash == hash);
                        }
                    }
                    assert forall|a: int| 0 <= a < after.len() implies self.index().contains_key(
                        (#[trigger] after[a]).hash,
                    ) && self.index()[after[a].hash] == a by {
                        if a < base.len() {
                            assert(after[a] == base[a]);
                            assert(index0.contains_key(base[a].hash));
                        }
                    }
                    assert forall|k: AddressHash| #[trigger]
                        self.index().contains_key(k) implies self.index()[k] < after.len()
                        && after[self.index()[k] as int].hash == k by {
                        if k != hash {
                            assert(index0.contains_key(k));
                            assert(after[index0[k] as int] == base[index0[k] as int]);
                        }
                    }
                    assert forall|a: int, b: int| 0 <= a < b < after.len() implies (
                    #[trigger] after[a]).hash != (#[trigger] after[b]).hash by {
                        if b < base.len() {
                            assert(after[a] == base[a] && after[b] == base[b]);
                        } else {
                            assert(after[a] == base[a]);
                        }
                    }
                    assert forall|a: int| 0 <= a < after.len() implies (
                    #[trigger] after[a]).display_name@ == short_hash(after[a].hash) by {
                        if a < base.len() {
                            assert(after[a] == base[a]);
                        }
                    }
                }
                true
            },
        }
    }

    /// Takes in an announce of a destination seen just now; see
    /// [`ChatState::add_destination_at`].
    pub fn add_destination(&mut self, hash: AddressHash, descriptor: D) -> (added: bool)
        requires
            old(self).wf(),
        ensures
            final(self).wf(),
            final(self).identity() == old(self).identity(),
            added == (index_of_hash(old(self).known(), hash) is None),
            exists|now: u64| #[trigger]
                announced(old(self).known(), final(self).known(), hash, descriptor, now),
    {
        let now = self.clock.now();
        self.add_destination_at(hash, descriptor, now)
    }

    /// The destination that `id` names: the one at that index if `id` is a
    /// number, else the first one whose name begins with `id`, compared
    /// without regard to case.
    pub fn get_destination(&self, id: &str) -> (r: Option<&KnownDestination<D>>)
        ensures
            match parse_index(id@) {
                Some(n) => if n < self.known().len() {
                    r is Some && *r->Some_0 == self.known()[n as int]
                } else {
                    r is None
                },
                None => match index_of_prefix(self.known(), lower(id@)) {
                    Some(i) => r is Some && *r->Some_0 == self.known()[i],
                    None => r is None,
                },
            },
    {
        let chars = chars_of(id);
        match parse_index_of(&chars) {
            Some(n) => {
                if n < self.destinations.len() {
                    Some(&self.destinations[n])
                } else {
                    None
                }
            },
            None => {
                let ghost all = self.destinations@;
                let ghost wanted = lower(id@);
                let mut found: Option<usize> = None;
                let mut i: usize = 0;
                while i < self.destinations.len()
                    invariant
                        all == self.destinations@,
                        chars@ == id@,
                        wanted == lower(id@),
                        0 <= i <= all.len(),
                        match found {
                            Some(k) => index_of_prefix(all.take(i as int), wanted) == Some(
                                k as int,
                            ) && k < i,
                            None => index_of_prefix(all.take(i as int), wanted) is None,
                        },
                    decreases all.len() - i,
                {
                    assert(all.take(i + 1).drop_last() =~= all.take(i as int));
                    assert(all.take(i + 1).last() == all[i as int]);
                    if found.is_none() && begins_with(
                        self.destinations[i].display_name.as_str(),
                        &chars,
                    ) {
                        found = Some(i);
                    }
                    i = i + 1;
                }
                assert(all.take(i as int) =~= all);
                match found {
                    Some(k) => Some(&self.destinations[k]),
                    None => None,
                }
            },
        }
    }

    /// Whole seconds since the state was created: the seconds in a reading
    /// of the state's clock.
    pub fn uptime_secs(&self) -> (s: u64)
        ensures
            exists|micros: u64| s == #[trigger] seconds_in(micros),
    {
        whole_secs(self.clock.now())
    }

    /// The text that lists the known destinations at `now`.
    pub fn format_list_at(&self, now: u64) -> (s: String)
        ensures
            s@ == list_text(self.known(), now),
    {
        if self.destinations.len() == 0 {
            return String::from_str("No known destinations. Wait for announces...");
        }
        let mut s = String::from_str("Known destinations:\n");
        let mut i: usize = 0;
        assert(s@ =~= "Known destinations:\n"@ + list_lines(self.known(), now, 0));
        while i < self.destinations.len()
            invariant
                0 <= i <= self.destinations@.len(),
                s@ == "Known destinations:\n"@ + list_lines(self.known(), now, i as int),
            decreases self.destinations@.len() - i,
        {
            let dest = &self.destinations[i];
            let line = format_entry_line(i, dest.display_name.as_str(), dest.seconds_ago(now));
            push_text(&mut s, line.as_str());
            assert(s@ =~= "Known destinations:\n"@ + (list_lines(self.known(), now, i as int)
                + line@));
            i = i + 1;
        }
        s
    }

    /// The text that shows the node's status after `uptime_secs` seconds.
    pub fn format_status_at(&self, uptime_secs: u64) -> (s: String)
        ensures
            s@ == status_text(self.identity(), uptime_secs, self.known().len()),
    {
        let mut s = String::from_str("Node Status:\n  Identity: ");
        push_text(&mut s, self.identity_hash.as_str());
        push_text(&mut s, "\n  Uptime: ");
        push_decimal(&mut s, uptime_secs);
        push_text(&mut s, "s\n  Known destinations: ");
        push_decimal(&mut s, self.destinations.len() as u64);
        push_text(&mut s, "\n");
        assert(s@ =~= status_text(self.identity(), uptime_secs, self.known().len()));
        s
    }

    /// The text that lists the known destinations just now.
    pub fn format_list(&self) -> (s: String)
        ensures
            exists|now: u64| s@ == #[trigger] list_text(self.known(), now),
    {
        let now = self.clock.now();
        self.format_list_at(now)
    }

    /// The text that shows the node's status just now.
    pub fn format_status(&self) -> (s: String)
        ensures
            exists|uptime_secs: u64|
                s@ == #[trigger] status_text(self.identity(), uptime_secs, self.known().len()),
    {
        let uptime = self.uptime_secs();
        self.format_status_at(uptime)
    }
}

} // verus!
