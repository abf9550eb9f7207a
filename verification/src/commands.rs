//! The server console's commands: parsing a typed line into a command.
//!
//! Numbers that the server reads as floating-point values (the time of day, teleport
//! coordinates) are checked here as text, exactly as `f32::from_str` would read them, and
//! kept as the text that was typed; the server converts them.

use vstd::prelude::*;
use crate::text::chars_of;
use crate::strings::is_text;
use crate::float_text::{is_float_text, is_unit_float_text, reads_as_float, reads_in_unit_interval};

verus! {

/// A console command.
#[derive(Debug, Clone, PartialEq, Eq)]
pub enum Command {
    Noop,
    Stop,
    List,
    Say(String),
    /// `/time set <value>`, with the value as typed; it reads as an `f32` between 0 and 1.
    TimeSet(String),
    Kick(String),
    /// `/tp <player|id> <x> <y> <z>`, with the coordinates as typed; each reads as an `f32`.
    Teleport { player: String, x: String, y: String, z: String },
    Help,
    InvalidUsage(String),
    Unknown(String),
}

/// A console command with its texts as character sequences.
pub enum CommandView {
    Noop,
    Stop,
    List,
    Say(Seq<char>),
    TimeSet(Seq<char>),
    Kick(Seq<char>),
    Teleport { player: Seq<char>, x: Seq<char>, y: Seq<char>, z: Seq<char> },
    Help,
    InvalidUsage(Seq<char>),
    Unknown(Seq<char>),
}

impl View for Command {
    type V = CommandView;

    open spec fn view(&self) -> CommandView {
        match self {
            Command::Noop => CommandView::Noop,
            Command::Stop => CommandView::Stop,
            Command::List => CommandView::List,
            Command::Say(m) => CommandView::Say(m@),
            Command::TimeSet(v) => CommandView::TimeSet(v@),
            Command::Kick(t) => CommandView::Kick(t@),
            Command::Teleport { player, x, y, z } => CommandView::Teleport {
                player: player@,
                x: x@,
                y: y@,
                z: z@,
            },
            Command::Help => CommandView::Help,
            Command::InvalidUsage(m) => CommandView::InvalidUsage(m@),
            Command::Unknown(i) => CommandView::Unknown(i@),
        }
    }
}

/// Unicode's White_Space property, which `char::is_whitespace` tests.
pub open spec fn is_ws(c: char) -> bool {
    let v = c as u32;
    (9 <= v <= 13) || v == 32 || v == 0x85 || v == 0xA0 || v == 0x1680 || (0x2000 <= v
        <= 0x200A) || v == 0x2028 || v == 0x2029 || v == 0x202F || v == 0x205F || v == 0x3000
}

/// `s` without leading whitespace.
pub open spec fn trim_start_ws(s: Seq<char>) -> Seq<char>
    decreases s.len(),
{
    if s.len() > 0 && is_ws(s[0]) {
        trim_start_ws(s.drop_first())
    } else {
        s
    }
}

/// `s` without trailing whitespace.
pub open spec fn trim_end_ws(s: Seq<char>) -> Seq<char>
    decreases s.len(),
{
    if s.len() > 0 && is_ws(s.last()) {
        trim_end_ws(s.drop_last())
    } else {
        s
    }
}

/// `s` without leading and trailing whitespace (`str::trim`).
pub open spec fn trim_ws(s: Seq<char>) -> Seq<char> {
    trim_end_ws(trim_start_ws(s))
}

/// The characters of `s` before its first whitespace.
pub open spec fn first_word(s: Seq<char>) -> Seq<char>
    decreases s.len(),
{
    if s.len() == 0 || is_ws(s[0]) {
        Seq::empty()
    } else {
        seq![s[0]] + first_word(s.drop_first())
    }
}

/// The characters of `s` after its first whitespace; empty when it has none.
pub open spec fn after_first_ws(s: Seq<char>) -> Seq<char>
    decreases s.len(),
{
    if s.len() == 0 {
        Seq::empty()
    } else if is_ws(s[0]) {
        s.drop_first()
    } else {
        after_first_ws(s.drop_first())
    }
}

/// The maximal runs of non-whitespace characters of `s`, after the words already gathered
/// in `acc` and the word `cur` being read (`str::split_whitespace`).
pub open spec fn words_from(s: Seq<char>, cur: Seq<char>, acc: Seq<Seq<char>>) -> Seq<Seq<char>>
    decreases s.len(),
{
    if s.len() == 0 {
        if cur.len() > 0 {
            acc.push(cur)
        } else {
            acc
        }
    } else if is_ws(s[0]) {
        words_from(s.drop_first(), Seq::empty(), if cur.len() > 0 {
            acc.push(cur)
        } else {
            acc
        })
    } else {
        words_from(s.drop_first(), cur.push(s[0]), acc)
    }
}

/// The whitespace-separated words of `s`.
pub open spec fn words(s: Seq<char>) -> Seq<Seq<char>> {
    words_from(s, Seq::empty(), Seq::empty())
}

/// `c` with an ASCII capital letter made small.
pub open spec fn ascii_lower(c: char) -> char {
    if 'A' <= c <= 'Z' {
        ((c as u32) + 32) as char
    } else {
        c
    }
}

/// `s` with its ASCII capital letters made small (`str::to_ascii_lowercase`).
pub open spec fn ascii_lowercase(s: Seq<char>) -> Seq<char> {
    s.map_values(|c: char| ascii_lower(c))
}

/// The texts are equal when ASCII letters are compared without case.
pub open spec fn eq_ignore_ascii_case(a: Seq<char>, b: Seq<char>) -> bool {
    ascii_lowercase(a) == ascii_lowercase(b)
}

/// The usage line of `/time`.
pub open spec fn time_usage_text() -> Seq<char> {
    "Usage: /time set <value>, where value is between 0.0 and 1.0"@
}

/// The usage line of `/tp`.
pub open spec fn tp_usage_text() -> Seq<char> {
    "Usage: /tp <player|id> <x> <y> <z>"@
}

/// The command a console line stands for. The line is trimmed and may start with `/`; its
/// first word, without regard to ASCII case, names the command, and the rest, trimmed, holds
/// its arguments.
pub open spec fn parsed_command(line: Seq<char>) -> CommandView {
    let trimmed = trim_ws(line);
    let input = if trimmed.len() > 0 && trimmed[0] == '/' {
        trimmed.drop_first()
    } else {
        trimmed
    };
    let command = ascii_lowercase(first_word(input));
    let rest = trim_ws(after_first_ws(input));
    if input.len() == 0 {
        CommandView::Noop
    } else if command == "stop"@ {
        CommandView::Stop
    } else if command == "list"@ {
        CommandView::List
    } else if command == "say"@ {
        if rest.len() == 0 {
            CommandView::InvalidUsage("Usage: /say <message>"@)
        } else {
            CommandView::Say(rest)
        }
    } else if command == "time"@ {
        let args = words(rest);
        if args.len() == 2 && eq_ignore_ascii_case(args[0], "set"@) && reads_in_unit_interval(args[1]) {
            CommandView::TimeSet(args[1])
        } else {
            CommandView::InvalidUsage(time_usage_text())
        }
    } else if command == "kick"@ {
        if rest.len() == 0 {
            CommandView::InvalidUsage("Usage: /kick <player|id>"@)
        } else {
            CommandView::Kick(rest)
        }
    } else if command == "tp"@ {
        let args = words(rest);
        if args.len() == 4 && reads_as_float(args[1]) && reads_as_float(args[2]) && reads_as_float(args[3]) {
            CommandView::Teleport { player: args[0], x: args[1], y: args[2], z: args[3] }
        } else {
            CommandView::InvalidUsage(tp_usage_text())
        }
    } else if command == "help"@ {
        CommandView::Help
    } else {
        CommandView::Unknown(input)
    }
}

/// Whether `c` is whitespace (`char::is_whitespace`).
pub fn is_whitespace(c: char) -> (r: bool)
    ensures
        r == is_ws(c),
{
    let v = c as u32;
    (9 <= v && v <= 13) || v == 32 || v == 0x85 || v == 0xA0 || v == 0x1680 || (0x2000 <= v
        && v <= 0x200A) || v == 0x2028 || v == 0x2029 || v == 0x202F || v == 0x205F || v
        == 0x3000
}

proof fn lemma_trim_start_ws_skip(s: Seq<char>, i: int)
    requires
        0 <= i <= s.len(),
        forall|j: int| 0 <= j < i ==> is_ws(#[trigger] s[j]),
    ensures
        trim_start_ws(s) == trim_start_ws(s.subrange(i, s.len() as int)),
    decreases i,
{
    if i > 0 {
        assert(s.drop_first().subrange(i - 1, s.drop_first().len() as int) =~= s.subrange(
            i,
            s.len() as int,
        ));
        assert forall|j: int| 0 <= j < i - 1 implies is_ws(#[trigger] s.drop_first()[j]) by {
            assert(s.drop_first()[j] == s[j + 1]);
        }
        lemma_trim_start_ws_skip(s.drop_first(), i - 1);
    } else {
        assert(s.subrange(0, s.len() as int) =~= s);
    }
}

proof fn lemma_trim_end_ws_skip(s: Seq<char>, k: int)
    requires
        0 <= k <= s.len(),
        forall|j: int| k <= j < s.len() ==> is_ws(#[trigger] s[j]),
    ensures
        trim_end_ws(s) == trim_end_ws(s.subrange(0, k)),
    decreases s.len() - k,
{
    if k < s.len() {
        assert(s.drop_last().subrange(0, k) =~= s.subrange(0, k));
        assert forall|j: int| k <= j < s.drop_last().len() implies is_ws(#[trigger] s.drop_last()[j]) by {
            assert(s.drop_last()[j] == s[j]);
        }
        lemma_trim_end_ws_skip(s.drop_last(), k);
    } else {
        assert(s.subrange(0, k) =~= s);
    }
}

/// `s` without leading and trailing whitespace.
fn trim(s: &[char]) -> (r: Vec<char>)
    ensures
        r@ == trim_ws(s@),
{
    let mut start: usize = 0;
    while start < s.len() && is_whitespace(s[start])
        invariant
            start <= s@.len(),
            forall|j: int| 0 <= j < start ==> is_ws(#[trigger] s@[j]),
        decreases s@.len() - start,
    {
        start += 1;
    }
    proof {
        lemma_trim_start_ws_skip(s@, start as int);
    }
    let ghost t = s@.subrange(start as int, s@.len() as int);
    assert(t.len() == 0 || !is_ws(t[0]));
    assert(trim_start_ws(t) == t);
    let mut end: usize = s.len();
    while end > start && is_whitespace(s[end - 1])
        invariant
            start <= end <= s@.len(),
            forall|j: int| end <= j < s@.len() ==> is_ws(#[trigger] s@[j]),
        decreases end,
    {
        end -= 1;
    }
    proof {
        let k = end - start;
        assert forall|j: int| k <= j < t.len() implies is_ws(#[trigger] t[j]) by {
            assert(t[j] == s@[start + j]);
        }
        lemma_trim_end_ws_skip(t, k as int);
        let u = t.subrange(0, k as int);
        assert(u =~= s@.subrange(start as int, end as int));
        if u.len() > 0 {
            assert(u.last() == s@[end - 1]);
        }
        assert(trim_end_ws(u) == u);
    }
    let mut r: Vec<char> = Vec::new();
    let mut i: usize = start;
    while i < end
        invariant
            start <= i <= end,
            end <= s@.len(),
            r@ == s@.subrange(start as int, i as int),
        decreases end - i,
    {
        r.push(s[i]);
        i += 1;
        assert(r@ =~= s@.subrange(start as int, i as int));
    }
    r
}

proof fn lemma_first_word_split(s: Seq<char>, i: int)
    requires
        0 <= i <= s.len(),
        forall|j: int| 0 <= j < i ==> !is_ws(#[trigger] s[j]),
        i == s.len() || is_ws(s[i]),
    ensures
        first_word(s) == s.subrange(0, i),
        after_first_ws(s) == (if i < s.len() {
            s.subrange(i + 1, s.len() as int)
        } else {
            Seq::<char>::empty()
        }),
    decreases i,
{
    if i > 0 {
        assert forall|j: int| 0 <= j < i - 1 implies !is_ws(#[trigger] s.drop_first()[j]) by {
            assert(s.drop_first()[j] == s[j + 1]);
        }
        if i < s.len() {
            assert(s.drop_first()[i - 1] == s[i]);
        }
        lemma_first_word_split(s.drop_first(), i - 1);
        assert(seq![s[0]] + s.drop_first().subrange(0, i - 1) =~= s.subrange(0, i));
        if i < s.len() {
            assert(s.drop_first().subrange(i, s.drop_first().len() as int) =~= s.subrange(
                i + 1,
                s.len() as int,
            ));
        }
    } else {
        assert(s.subrange(0, 0) =~= Seq::<char>::empty());
        if s.len() > 0 {
            assert(s.drop_first() =~= s.subrange(1, s.len() as int));
        }
    }
}

/// The first word of `s` and what follows its first whitespace.
fn split_first_word(s: &[char]) -> (r: (Vec<char>, Vec<char>))
    ensures
        r.0@ == first_word(s@),
        r.1@ == after_first_ws(s@),
{
    let mut head: Vec<char> = Vec::new();
    let mut i: usize = 0;
    while i < s.len() && !is_whitespace(s[i])
        invariant
            i <= s@.len(),
            head@ == s@.subrange(0, i as int),
            forall|j: int| 0 <= j < i ==> !is_ws(#[trigger] s@[j]),
        decreases s@.len() - i,
    {
        head.push(s[i]);
        i += 1;
        assert(head@ =~= s@.subrange(0, i as int));
    }
    let mut tail: Vec<char> = Vec::new();
    if i < s.len() {
        let mut k: usize = i + 1;
        while k < s.len()
            invariant
                i < s@.len(),
                i + 1 <= k <= s@.len(),
                tail@ == s@.subrange(i + 1, k as int),
            decreases s@.len() - k,
        {
            tail.push(s[k]);
            k += 1;
            assert(tail@ =~= s@.subrange(i + 1, k as int));
        }
    }
    proof {
        lemma_first_word_split(s@, i as int);
        if i == s@.len() {
            assert(tail@ =~= Seq::<char>::empty());
        }
    }
    (head, tail)
}

/// `s` with its ASCII capital letters made small.
pub(crate) fn to_ascii_lowercase(s: &[char]) -> (r: Vec<char>)
    ensures
        r@ == ascii_lowercase(s@),
{
    let mut r: Vec<char> = Vec::new();
    let mut i: usize = 0;
    while i < s.len()
        invariant
            i <= s@.len(),
            r@ == ascii_lowercase(s@.subrange(0, i as int)),
        decreases s@.len() - i,
    {
        let c = s[i];
        let l = if 'A' <= c && c <= 'Z' {
            let v: u8 = (c as u32 + 32) as u8;
            v as char
        } else {
            c
        };
        assert(l == ascii_lower(c));
        r.push(l);
        i += 1;
        assert(r@ =~= ascii_lowercase(s@.subrange(0, i as int)));
    }
    assert(s@.subrange(0, i as int) =~= s@);
    r
}

/// The whitespace-separated words of `s`.
fn split_words(s: &[char]) -> (r: Vec<Vec<char>>)
    ensures
        r@.map_values(|w: Vec<char>| w@) == words(s@),
{
    let mut acc: Vec<Vec<char>> = Vec::new();
    let mut cur: Vec<char> = Vec::new();
    let mut i: usize = 0;
    assert(s@.subrange(0, s@.len() as int) =~= s@);
    assert(acc@.map_values(|w: Vec<char>| w@) =~= Seq::<Seq<char>>::empty());
    assert(cur@ =~= Seq::<char>::empty());
    while i < s.len()
        invariant
            i <= s@.len(),
            words(s@) == words_from(
                s@.subrange(i as int, s@.len() as int),
                cur@,
                acc@.map_values(|w: Vec<char>| w@),
            ),
        decreases s@.len() - i,
    {
        let ghost rest = s@.subrange(i as int, s@.len() as int);
        assert(rest.drop_first() =~= s@.subrange(i + 1, s@.len() as int));
        assert(rest[0] == s@[i as int]);
        if is_whitespace(s[i]) {
            if cur.len() > 0 {
                let ghost before = acc@.map_values(|w: Vec<char>| w@);
                let ghost word = cur@;
                let done = cur;
                cur = Vec::new();
                acc.push(done);
                assert(acc@.map_values(|w: Vec<char>| w@) =~= before.push(word));
            }
            assert(cur@ =~= Seq::<char>::empty());
        } else {
            cur.push(s[i]);
        }
        i += 1;
    }
    assert(s@.subrange(i as int, s@.len() as int) =~= Seq::<char>::empty());
    if cur.len() > 0 {
        let ghost before = acc@.map_values(|w: Vec<char>| w@);
        let ghost word = cur@;
        acc.push(cur);
        assert(acc@.map_values(|w: Vec<char>| w@) =~= before.push(word));
    }
    acc
}

/// Whether `a` equals `lit` without regard to ASCII case.
fn matches_ignore_ascii_case(a: &[char], lit: &str) -> (r: bool)
    ensures
        r == eq_ignore_ascii_case(a@, lit@),
{
    let la = to_ascii_lowercase(a);
    let l = chars_of(lit);
    let lb = to_ascii_lowercase(l.as_slice());
    if la.len() != lb.len() {
        return false;
    }
    let mut i: usize = 0;
    while i < la.len()
        invariant
            la@.len() == lb@.len(),
            la@ == ascii_lowercase(a@),
            lb@ == ascii_lowercase(lit@),
            i <= la@.len(),
            forall|j: int| 0 <= j < i ==> la@[j] == lb@[j],
        decreases la@.len() - i,
    {
        if la[i] != lb[i] {
            assert(la@[i as int] != lb@[i as int]);
            return false;
        }
        i += 1;
    }
    assert(la@ =~= lb@);
    true
}

fn text(lit: &str) -> (r: String)
    ensures
        r@ == lit@,
{
    let mut s = String::new();
    s.push_str(lit);
    assert(s@ =~= lit@);
    s
}

/// The usage line that `/time` answers a wrong use with.
pub fn time_usage() -> (r: String)
    ensures
        r@ == time_usage_text(),
{
    text("Usage: /time set <value>, where value is between 0.0 and 1.0")
}

/// The usage line that `/tp` answers a wrong use with.
pub fn tp_usage() -> (r: String)
    ensures
        r@ == tp_usage_text(),
{
    text("Usage: /tp <player|id> <x> <y> <z>")
}

/// Parses a line typed at the server console.
pub fn parse_command(line: &str) -> (r: Command)
    ensures
        r@ == parsed_command(line@),
        r@ is TimeSet ==> reads_in_unit_interval(r@->TimeSet_0),
        r@ is Teleport ==> reads_as_float(r@->x) && reads_as_float(r@->y) && reads_as_float(r@->z),
{
    let chars = chars_of(line);
    let trimmed = trim(chars.as_slice());
    let input: Vec<char> = if trimmed.len() > 0 && trimmed[0] == '/' {
        let mut v: Vec<char> = Vec::new();
        let mut i: usize = 1;
        while i < trimmed.len()
            invariant
                1 <= i <= trimmed@.len(),
                v@ == trimmed@.subrange(1, i as int),
            decreases trimmed@.len() - i,
        {
            v.push(trimmed[i]);
            i += 1;
            assert(v@ =~= trimmed@.subrange(1, i as int));
        }
        assert(v@ =~= trimmed@.drop_first());
        v
    } else {
        trimmed
    };
    if input.len() == 0 {
        return Command::Noop;
    }
    let (head, tail) = split_first_word(input.as_slice());
    let command = to_ascii_lowercase(head.as_slice());
    let rest = trim(tail.as_slice());
    let cmd = command.as_slice();
    if is_text(cmd, "stop") {
        Command::Stop
    } else if is_text(cmd, "list") {
        Command::List
    } else if is_text(cmd, "say") {
        if rest.len() == 0 {
            Command::InvalidUsage(text("Usage: /say <message>"))
        } else {
            Command::Say(crate::text::string_of(rest.as_slice()))
        }
    } else if is_text(cmd, "time") {
        let args = split_words(rest.as_slice());
        proof {
            assert(args@.len() == words(rest@).len());
        }
        if args.len() == 2 && matches_ignore_ascii_case(args[0].as_slice(), "set") && is_unit_float_text(
            args[1].as_slice(),
        ) {
            proof {
                assert(args@[0]@ == words(rest@)[0]);
                assert(args@[1]@ == words(rest@)[1]);
            }
            Command::TimeSet(crate::text::string_of(args[1].as_slice()))
        } else {
            proof {
                if args@.len() == 2 {
                    assert(args@[0]@ == words(rest@)[0]);
                    assert(args@[1]@ == words(rest@)[1]);
                }
            }
            Command::InvalidUsage(time_usage())
        }
    } else if is_text(cmd, "kick") {
        if rest.len() == 0 {
            Command::InvalidUsage(text("Usage: /kick <player|id>"))
        } else {
            Command::Kick(crate::text::string_of(rest.as_slice()))
        }
    } else if is_text(cmd, "tp") {
        let args = split_words(rest.as_slice());
        proof {
            assert(args@.len() == words(rest@).len());
        }
        if args.len() == 4 && is_float_text(args[1].as_slice()) && is_float_text(args[2].as_slice())
            && is_float_text(args[3].as_slice()) {
            proof {
                assert(args@[0]@ == words(rest@)[0]);
                assert(args@[1]@ == words(rest@)[1]);
                assert(args@[2]@ == words(rest@)[2]);
                assert(args@[3]@ == words(rest@)[3]);
            }
            Command::Teleport {
                player: crate::text::string_of(args[0].as_slice()),
                x: crate::text::string_of(args[1].as_slice()),
                y: crate::text::string_of(args[2].as_slice()),
                z: crate::text::string_of(args[3].as_slice()),
            }
        } else {
            proof {
                if args@.len() == 4 {
                    assert(args@[1]@ == words(rest@)[1]);
                    assert(args@[2]@ == words(rest@)[2]);
                    assert(args@[3]@ == words(rest@)[3]);
                }
            }
            Command::InvalidUsage(tp_usage())
        }
    } else if is_text(cmd, "help") {
        Command::Help
    } else {
        Command::Unknown(crate::text::string_of(input.as_slice()))
    }
}


proof fn lemma_trim_end_prepend(c: char, t: Seq<char>)
    requires
        !is_ws(c),
    ensures
        trim_end_ws(seq![c] + t) == seq![c] + trim_end_ws(t),
    decreases t.len(),
{
    let s = seq![c] + t;
    if t.len() == 0 {
        assert(s =~= seq![c]);
        assert(trim_end_ws(t) =~= t);
    } else if is_ws(t.last()) {
        assert(s.last() == t.last());
        assert(s.drop_last() =~= seq![c] + t.drop_last());
        lemma_trim_end_prepend(c, t.drop_last());
    } else {
        assert(s.last() == t.last());
    }
}

proof fn lemma_trim_end_keeps_first(t: Seq<char>)
    requires
        t.len() > 0,
        !is_ws(t[0]),
    ensures
        trim_end_ws(t).len() > 0,
        trim_end_ws(t)[0] == t[0],
    decreases t.len(),
{
    if t.len() > 1 && is_ws(t.last()) {
        assert(t.drop_last()[0] == t[0]);
        lemma_trim_end_keeps_first(t.drop_last());
    }
}

proof fn lemma_trim_start_result(s: Seq<char>)
    ensures
        trim_start_ws(s).len() == 0 || !is_ws(trim_start_ws(s)[0]),
    decreases s.len(),
{
    if s.len() > 0 && is_ws(s[0]) {
        lemma_trim_start_result(s.drop_first());
    }
}

proof fn lemma_trim_end_result(s: Seq<char>)
    ensures
        trim_end_ws(s).len() == 0 || !is_ws(trim_end_ws(s).last()),
        trim_end_ws(s).len() <= s.len(),
        forall|i: int| 0 <= i < trim_end_ws(s).len() ==> #[trigger] trim_end_ws(s)[i] == s[i],
    decreases s.len(),
{
    if s.len() > 0 && is_ws(s.last()) {
        lemma_trim_end_result(s.drop_last());
        assert forall|i: int| 0 <= i < trim_end_ws(s).len() implies #[trigger] trim_end_ws(s)[i] == s[i] by {
            assert(trim_end_ws(s)[i] == s.drop_last()[i]);
        }
    }
}

/// Trimming twice trims no more than once.
proof fn lemma_trim_twice(s: Seq<char>)
    ensures
        trim_ws(trim_ws(s)) == trim_ws(s),
{
    let a = trim_start_ws(s);
    lemma_trim_start_result(s);
    let b = trim_end_ws(a);
    lemma_trim_end_result(a);
    if b.len() > 0 {
        assert(b[0] == a[0]);
        assert(!is_ws(b[0]));
    }
    assert(trim_start_ws(b) == b);
    lemma_trim_end_result(b);
    assert(trim_end_ws(b) == b);
}

/// A console line means what it means once trimmed: surrounding whitespace changes nothing.
pub proof fn lemma_trim_changes_nothing(line: Seq<char>)
    ensures
        parsed_command(trim_ws(line)) == parsed_command(line),
{
    lemma_trim_twice(line);
}

/// The laws of console parsing (`parse_command` gives `parsed_command` of its line):
/// whitespace around a line changes nothing; a line that is empty or only `/` once trimmed
/// does nothing; `/time set` sets only a value that reads as a float between 0 and 1; and
/// `/tp` moves a player only to coordinates that each read as a float.
pub proof fn lemma_parse_command_laws(line: Seq<char>)
    ensures
        parsed_command(trim_ws(line)) == parsed_command(line),
        trim_ws(line).len() == 0 ==> parsed_command(line) is Noop,
        trim_ws(line) =~= seq!['/'] ==> parsed_command(line) is Noop,
        parsed_command(line) is TimeSet ==> reads_in_unit_interval(parsed_command(line)->TimeSet_0),
        parsed_command(line) is Teleport ==> reads_as_float(parsed_command(line)->x)
            && reads_as_float(parsed_command(line)->y) && reads_as_float(parsed_command(line)->z),
{
    lemma_trim_changes_nothing(line);
    if trim_ws(line) =~= seq!['/'] {
        assert(trim_ws(line).drop_first().len() == 0);
    }
}

/// The names of the commands the console knows.
pub open spec fn known_command(word: Seq<char>) -> bool {
    word == "stop"@ || word == "list"@ || word == "say"@ || word == "time"@ || word == "kick"@ || word
        == "tp"@ || word == "help"@
}

proof fn lemma_trim_end_after_word(w: Seq<char>, r: Seq<char>)
    requires
        w.len() > 0,
        !is_ws(w.last()),
    ensures
        trim_end_ws(w + r) == w + trim_end_ws(r),
    decreases r.len(),
{
    if r.len() == 0 {
        assert(w + r =~= w);
        assert(w + trim_end_ws(r) =~= w);
        assert((w + r).last() == w.last());
    } else if is_ws(r.last()) {
        assert((w + r).drop_last() =~= w + r.drop_last());
        assert((w + r).last() == r.last());
        lemma_trim_end_after_word(w, r.drop_last());
    } else {
        assert((w + r).last() == r.last());
    }
}

/// What a line made of a word and the rest of it reads as, up to the word's case.
proof fn lemma_word_line(w: Seq<char>, rest: Seq<char>)
    requires
        w.len() > 0,
        forall|i: int| 0 <= i < w.len() ==> !is_ws(#[trigger] w[i]),
        w[0] != '/',
        rest.len() == 0 || is_ws(rest[0]),
    ensures
        ({
            let t = trim_end_ws(rest);
            let input = w + t;
            &&& trim_ws(w + rest) == input
            &&& input.len() > 0
            &&& input[0] != '/'
            &&& first_word(input) == w
            &&& after_first_ws(input) == (if t.len() > 0 {
                t.drop_first()
            } else {
                Seq::<char>::empty()
            })
        }),
{
    let s = w + rest;
    assert(s[0] == w[0]);
    assert(trim_start_ws(s) == s);
    lemma_trim_end_after_word(w, rest);
    let t = trim_end_ws(rest);
    let input = w + t;
    lemma_trim_end_result(rest);
    assert(input[0] == w[0]);
    let i = w.len() as int;
    assert forall|j: int| 0 <= j < i implies !is_ws(#[trigger] input[j]) by {
        assert(input[j] == w[j]);
    }
    if t.len() > 0 {
        assert(t[0] == rest[0]);
        assert(input[i] == t[0]);
    }
    lemma_first_word_split(input, i);
    assert(input.subrange(0, i) =~= w);
    if t.len() > 0 {
        assert(input.subrange(i + 1, input.len() as int) =~= t.drop_first());
    }
}

/// The command word is read without regard to ASCII case: two lines whose first words, a
/// command the console knows, differ only in the case of their letters mean the same.
pub proof fn lemma_command_word_case(w1: Seq<char>, w2: Seq<char>, rest: Seq<char>)
    requires
        w1.len() > 0,
        w2.len() > 0,
        forall|i: int| 0 <= i < w1.len() ==> !is_ws(#[trigger] w1[i]),
        forall|i: int| 0 <= i < w2.len() ==> !is_ws(#[trigger] w2[i]),
        w1[0] != '/',
        w2[0] != '/',
        ascii_lowercase(w1) == ascii_lowercase(w2),
        known_command(ascii_lowercase(w1)),
        rest.len() == 0 || is_ws(rest[0]),
    ensures
        parsed_command(w1 + rest) == parsed_command(w2 + rest),
{
    reveal_strlit("stop");
    reveal_strlit("list");
    reveal_strlit("say");
    reveal_strlit("time");
    reveal_strlit("kick");
    reveal_strlit("tp");
    reveal_strlit("help");
    lemma_word_line(w1, rest);
    lemma_word_line(w2, rest);
}

/// One word: not empty, and no whitespace in it.
pub open spec fn single_word(w: Seq<char>) -> bool {
    w.len() > 0 && forall|i: int| 0 <= i < w.len() ==> !is_ws(#[trigger] w[i])
}

proof fn lemma_words_from_word(w: Seq<char>, s: Seq<char>, cur: Seq<char>, acc: Seq<Seq<char>>)
    requires
        forall|i: int| 0 <= i < w.len() ==> !is_ws(#[trigger] w[i]),
    ensures
        words_from(w + s, cur, acc) == words_from(s, cur + w, acc),
    decreases w.len(),
{
    if w.len() > 0 {
        let ws = w + s;
        assert(ws[0] == w[0]);
        assert(ws.drop_first() =~= w.drop_first() + s);
        assert forall|i: int| 0 <= i < w.drop_first().len() implies !is_ws(#[trigger] w.drop_first()[i]) by {
            assert(w.drop_first()[i] == w[i + 1]);
        }
        lemma_words_from_word(w.drop_first(), s, cur.push(w[0]), acc);
        assert(cur.push(w[0]) + w.drop_first() =~= cur + w);
    } else {
        assert(w + s =~= s);
        assert(cur + w =~= cur);
    }
}

proof fn lemma_words_from_spaced(w: Seq<char>, s: Seq<char>, acc: Seq<Seq<char>>)
    requires
        single_word(w),
    ensures
        words_from(w + (seq![' '] + s), Seq::empty(), acc) == words_from(s, Seq::empty(), acc.push(w)),
{
    lemma_words_from_word(w, seq![' '] + s, Seq::empty(), acc);
    assert(Seq::<char>::empty() + w =~= w);
    let t = seq![' '] + s;
    assert(t[0] == ' ');
    assert(t.drop_first() =~= s);
}

/// `/tp` takes its four arguments in order: for a line `tp <player> <x> <y> <z>`, each of
/// them one word, the player is teleported to x, y and z when each of the three reads as a
/// float, and the line is answered with the usage of `/tp` when one does not.
pub proof fn lemma_tp_arguments_in_order(p: Seq<char>, x: Seq<char>, y: Seq<char>, z: Seq<char>)
    requires
        single_word(p),
        single_word(x),
        single_word(y),
        single_word(z),
    ensures
        ({
            let line = "tp"@ + seq![' '] + p + seq![' '] + x + seq![' '] + y + seq![' '] + z;
            &&& reads_as_float(x) && reads_as_float(y) && reads_as_float(z) ==> parsed_command(line)
                == CommandView::Teleport { player: p, x: x, y: y, z: z }
            &&& !(reads_as_float(x) && reads_as_float(y) && reads_as_float(z)) ==> parsed_command(line)
                == CommandView::InvalidUsage(tp_usage_text())
        }),
{
    reveal_strlit("tp");
    reveal_strlit("stop");
    reveal_strlit("list");
    reveal_strlit("say");
    reveal_strlit("time");
    reveal_strlit("kick");
    let sp = seq![' '];
    let args = p + (sp + (x + (sp + (y + (sp + z)))));
    let rest = sp + args;
    let line = "tp"@ + sp + p + sp + x + sp + y + sp + z;
    assert(line =~= "tp"@ + rest);
    assert(is_ws(' '));
    assert(rest[0] == ' ');
    lemma_word_line("tp"@, rest);
    assert(rest.last() == z.last());
    assert(!is_ws(z[z.len() - 1]));
    assert(trim_end_ws(rest) == rest);
    assert(rest.drop_first() =~= args);
    let input = "tp"@ + rest;
    assert(trim_ws(line) == input);
    assert(first_word(input) == "tp"@);
    assert(after_first_ws(input) == args);
    assert(args[0] == p[0]);
    assert(trim_start_ws(args) == args);
    assert(args.last() == z.last());
    assert(trim_end_ws(args) == args);
    assert(ascii_lowercase("tp"@) =~= "tp"@);
    lemma_words_from_spaced(p, x + (sp + (y + (sp + z))), Seq::empty());
    lemma_words_from_spaced(x, y + (sp + z), seq![p]);
    lemma_words_from_spaced(y, z, seq![p, x]);
    lemma_words_from_word(z, Seq::empty(), Seq::empty(), seq![p, x, y]);
    assert(z + Seq::<char>::empty() =~= z);
    assert(Seq::<char>::empty() + z =~= z);
    assert(seq![p].push(x) =~= seq![p, x]);
    assert(seq![p, x].push(y) =~= seq![p, x, y]);
    assert(words(args) =~= seq![p, x, y, z]);
}

proof fn lemma_line_parts(w: Seq<char>, a: Seq<char>)
    requires
        single_word(w),
        w[0] != '/',
        a.len() > 0,
        !is_ws(a[0]),
        !is_ws(a.last()),
    ensures
        ({
            let line = w + seq![' '] + a;
            let input = trim_ws(line);
            &&& input == line
            &&& input.len() > 0
            &&& input[0] != '/'
            &&& first_word(input) == w
            &&& trim_ws(after_first_ws(input)) == a
        }),
{
    let rest = seq![' '] + a;
    let line = w + seq![' '] + a;
    assert(line =~= w + rest);
    assert(is_ws(' '));
    assert(rest[0] == ' ');
    lemma_word_line(w, rest);
    assert(rest.last() == a.last());
    assert(trim_end_ws(rest) == rest);
    assert(rest.drop_first() =~= a);
    assert(trim_start_ws(a) == a);
}

/// The console's commands with a free-form argument take the rest of the line as it stands:
/// for a trimmed text `m`, `say m` says `m` and `kick m` kicks `m`; with nothing after them
/// they are answered with their usage. `time set v`, for one word `v`, sets the time of day to
/// `v` when it reads as a float between 0 and 1, and is answered with the usage of `/time`
/// otherwise.
pub proof fn lemma_command_arguments(m: Seq<char>, v: Seq<char>)
    requires
        m.len() > 0,
        !is_ws(m[0]),
        !is_ws(m.last()),
        single_word(v),
    ensures
        parsed_command("say"@ + seq![' '] + m) == CommandView::Say(m),
        parsed_command("kick"@ + seq![' '] + m) == CommandView::Kick(m),
        parsed_command("say"@) == CommandView::InvalidUsage("Usage: /say <message>"@),
        parsed_command("kick"@) == CommandView::InvalidUsage("Usage: /kick <player|id>"@),
        reads_in_unit_interval(v) ==> parsed_command("time set"@ + seq![' '] + v) == CommandView::TimeSet(v),
        !reads_in_unit_interval(v) ==> parsed_command("time set"@ + seq![' '] + v) == CommandView::InvalidUsage(
            time_usage_text(),
        ),
{
    reveal_strlit("tp");
    reveal_strlit("stop");
    reveal_strlit("list");
    reveal_strlit("say");
    reveal_strlit("time");
    reveal_strlit("kick");
    reveal_strlit("set");
    reveal_strlit("time set");
    assert(ascii_lowercase("say"@) =~= "say"@);
    assert(ascii_lowercase("kick"@) =~= "kick"@);
    assert(ascii_lowercase("time"@) =~= "time"@);
    assert(ascii_lowercase("set"@) =~= "set"@);
    assert(is_ws(' '));
    lemma_line_parts("say"@, m);
    lemma_line_parts("kick"@, m);
    // The bare command words.
    assert(trim_start_ws("say"@) == "say"@);
    assert(trim_end_ws("say"@) == "say"@);
    assert(trim_start_ws("kick"@) == "kick"@);
    assert(trim_end_ws("kick"@) == "kick"@);
    lemma_first_word_split("say"@, 3);
    assert("say"@.subrange(0, 3) =~= "say"@);
    lemma_first_word_split("kick"@, 4);
    assert("kick"@.subrange(0, 4) =~= "kick"@);
    // `time set v`.
    let args = "set"@ + seq![' '] + v;
    assert("time set"@ + seq![' '] + v =~= "time"@ + seq![' '] + args);
    assert(args.last() == v.last());
    lemma_line_parts("time"@, args);
    let sp = seq![' '];
    assert(args =~= "set"@ + (sp + v));
    lemma_words_from_spaced("set"@, v, Seq::empty());
    lemma_words_from_word(v, Seq::empty(), Seq::empty(), seq!["set"@]);
    assert(v + Seq::<char>::empty() =~= v);
    assert(Seq::<char>::empty() + v =~= v);
    assert(words(args) =~= seq!["set"@, v]);
}

/// A console line means the same with a leading `/` as without one: for a line that starts
/// with neither whitespace nor `/`, putting a `/` in front of it changes nothing.
pub proof fn lemma_slash_is_optional(t: Seq<char>)
    requires
        t.len() > 0,
        !is_ws(t[0]),
        t[0] != '/',
    ensures
        parsed_command(seq!['/'] + t) == parsed_command(t),
{
    let s = seq!['/'] + t;
    assert(!is_ws('/'));
    assert(trim_start_ws(s) == s);
    assert(trim_start_ws(t) == t);
    lemma_trim_end_prepend('/', t);
    lemma_trim_end_keeps_first(t);
    let trimmed = trim_ws(s);
    assert(trimmed == seq!['/'] + trim_end_ws(t));
    assert(trimmed[0] == '/');
    assert(trimmed.drop_first() =~= trim_end_ws(t));
    assert(trim_ws(t) == trim_end_ws(t));
    assert(trim_ws(t)[0] != '/');
}

} // verus!
