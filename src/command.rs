use vstd::prelude::*;
use vstd::string::{StrSliceExecFns, StringExecFns};

verus! {

/// Unicode's White_Space property, the one `char::is_whitespace` tests.
pub open spec fn is_white(c: char) -> bool {
    let u: u32 = c as u32;
    (9 <= u && u <= 13) || u == 32 || u == 0x85 || u == 0xa0 || u == 0x1680 || (0x2000 <= u
        && u <= 0x200a) || u == 0x2028 || u == 0x2029 || u == 0x202f || u == 0x205f || u == 0x3000
}

/// Whether `c` is white space.
pub fn is_white_char(c: char) -> (r: bool)
    ensures
        r == is_white(c),
{
    let u: u32 = c as u32;
    (9 <= u && u <= 13) || u == 32 || u == 0x85 || u == 0xa0 || u == 0x1680 || (0x2000 <= u
        && u <= 0x200a) || u == 0x2028 || u == 0x2029 || u == 0x202f || u == 0x205f || u == 0x3000
}

/// Reading the first `n` characters of `s`: the words finished so far, and
/// the word being read.
pub open spec fn scan_words(s: Seq<char>, n: int) -> (Seq<Seq<char>>, Seq<char>)
    decreases n,
{
    if n <= 0 {
        (seq![], seq![])
    } else {
        let prev = scan_words(s, n - 1);
        if !is_white(s[n - 1]) {
            (prev.0, prev.1.push(s[n - 1]))
        } else if prev.1.len() > 0 {
            (prev.0.push(prev.1), seq![])
        } else {
            (prev.0, seq![])
        }
    }
}

/// The maximal runs of non-white characters of `s`, in order.
pub open spec fn words(s: Seq<char>) -> Seq<Seq<char>> {
    let r = scan_words(s, s.len() as int);
    if r.1.len() > 0 {
        r.0.push(r.1)
    } else {
        r.0
    }
}

/// The words joined by single spaces.
pub open spec fn join_words(ws: Seq<Seq<char>>) -> Seq<char>
    decreases ws.len(),
{
    if ws.len() == 0 {
        seq![]
    } else if ws.len() == 1 {
        ws[0]
    } else {
        join_words(ws.drop_last()) + seq![' '] + ws.last()
    }
}

pub open spec fn strings_view(v: Seq<String>) -> Seq<Seq<char>> {
    v.map_values(|s: String| s@)
}

/// Splits `text` into its words.
pub fn split_words(text: &str) -> (r: Vec<String>)
    ensures
        strings_view(r@) == words(text@),
{
    let n: usize = text.unicode_len();
    let mut out: Vec<String> = Vec::new();
    let mut start: usize = 0;
    let mut i: usize = 0;
    assert(text@.subrange(0, 0) =~= Seq::<char>::empty());
    assert(strings_view(out@) =~= Seq::<Seq<char>>::empty());
    while i < n
        invariant
            n == text@.len(),
            start <= i <= n,
            scan_words(text@, i as int) == (strings_view(out@), text@.subrange(start as int, i as int)),
        decreases n - i,
    {
        let c = text.get_char(i);
        let ghost prev_out = strings_view(out@);
        if is_white_char(c) {
            if i > start {
                let w = String::from_str(text.substring_char(start, i));
                out.push(w);
                assert(strings_view(out@) =~= prev_out.push(text@.subrange(start as int, i as int)));
            }
            start = i + 1;
            assert(text@.subrange(start as int, i + 1) =~= Seq::<char>::empty());
        } else {
            assert(text@.subrange(start as int, i + 1) =~= text@.subrange(start as int, i as int).push(c));
        }
        i = i + 1;
    }
    if n > start {
        let ghost prev_out = strings_view(out@);
        let w = String::from_str(text.substring_char(start, n));
        out.push(w);
        assert(strings_view(out@) =~= prev_out.push(text@.subrange(start as int, n as int)));
    }
    out
}

/// The words joined by single spaces.
pub fn join_with_spaces(ws: &[String]) -> (r: String)
    ensures
        r@ == join_words(strings_view(ws@)),
{
    let ghost v = strings_view(ws@);
    let mut out = String::new();
    let mut i: usize = 0;
    assert(v.take(0) =~= Seq::<Seq<char>>::empty());
    while i < ws.len()
        invariant
            i <= ws@.len(),
            v == strings_view(ws@),
            out@ == join_words(v.take(i as int)),
        decreases ws@.len() - i,
    {
        assert(v.take(i + 1).drop_last() =~= v.take(i as int));
        if i > 0 {
            out.append(" ");
            proof {
                reveal_strlit(" ");
            }
        } else {
            assert(out@ =~= Seq::<char>::empty());
        }
        out.append(ws[i].as_str());
        i = i + 1;
    }
    assert(v.take(ws@.len() as int) =~= v);
    out
}

/// Whether two strings hold the same characters.
pub fn same_text(a: &str, b: &str) -> (r: bool)
    ensures
        r == (a@ == b@),
{
    let n: usize = a.unicode_len();
    if n != b.unicode_len() {
        return false;
    }
    let mut i: usize = 0;
    while i < n
        invariant
            n == a@.len() == b@.len(),
            i <= n,
            forall|k: int| 0 <= k < i ==> a@[k] == b@[k],
        decreases n - i,
    {
        if a.get_char(i) != b.get_char(i) {
            return false;
        }
        i = i + 1;
    }
    assert(a@ =~= b@);
    true
}

/// A bot command read from a channel message: its first word, and the words
/// after it.
#[derive(Debug, Clone, PartialEq, Eq)]
pub struct Command {
    pub name: String,
    pub args: Vec<String>,
}

/// What the bot answers to a command named `name` with arguments `args`:
/// `!help` gets the help text, `!say` its arguments joined by spaces, any
/// other name that starts with `!` an unknown-command notice, and a name that
/// does not start with `!` nothing.
pub open spec fn reply_for(name: Seq<char>, args: Seq<Seq<char>>) -> Option<Seq<char>> {
    if name == "!help"@ {
        Some("helped"@)
    } else if name == "!say"@ {
        Some(join_words(args))
    } else if name.len() > 0 && name[0] == '!' {
        Some("Unknown command "@ + name)
    } else {
        None
    }
}

impl Command {
    /// The command in a message text, or None where the text has no words.
    pub fn from_text(text: &str) -> (r: Option<Command>)
        ensures
            r is None <==> words(text@).len() == 0,
            r matches Some(c) ==> c.name@ == words(text@)[0] && strings_view(c.args@)
                == words(text@).drop_first(),
    {
        let mut ws = split_words(text);
        if ws.len() == 0 {
            return None;
        }
        let ghost all = strings_view(ws@);
        let name = ws.remove(0);
        assert(strings_view(ws@) =~= all.drop_first());
        Some(Command { name, args: ws })
    }

    /// The bot's answer to this command, if any.
    pub fn dispatch(&self) -> (r: Option<String>)
        ensures
            match reply_for(self.name@, strings_view(self.args@)) {
                Some(t) => r matches Some(s) && s@ == t,
                None => r is None,
            },
    {
        proof {
            reveal_strlit("!help");
            reveal_strlit("!say");
            reveal_strlit("helped");
            reveal_strlit("Unknown command ");
        }
        let name = self.name.as_str();
        if same_text(name, "!help") {
            Some(String::from_str("helped"))
        } else if same_text(name, "!say") {
            Some(join_with_spaces(self.args.as_slice()))
        } else if name.unicode_len() > 0 && name.get_char(0) == '!' {
            let mut reply = String::from_str("Unknown command ");
            reply.append(name);
            Some(reply)
        } else {
            None
        }
    }
}

} // verus!
