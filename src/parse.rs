use vstd::prelude::*;

use crate::proto::{opt_param, strs, Command, Message, Prefix, Tag};
use crate::text::{from_chars, split, split_on, to_chars};
use crate::user::{find, lemma_find};

verus! {

/// `s` from index `i` on.
pub open spec fn from_index(s: Seq<char>, i: int) -> Seq<char> {
    s.subrange(i, s.len() as int)
}

/// The text before the first space, and the text after it (empty if there is none).
pub open spec fn word(s: Seq<char>) -> (Seq<char>, Seq<char>) {
    let i = find(s, ' ') as int;
    if i < s.len() {
        (s.subrange(0, i), from_index(s, i + 1))
    } else {
        (s, Seq::empty())
    }
}

/// The parameters after a command name: words separated by single spaces,
/// the last of which may start with `:` and then runs to the end of the line.
pub open spec fn params_of(s: Seq<char>) -> Seq<Seq<char>>
    decreases s.len(),
{
    if s.len() == 0 {
        Seq::empty()
    } else if s[0] == ':' {
        seq![s.drop_first()]
    } else {
        let i = find(s, ' ') as int;
        if i < s.len() {
            seq![s.subrange(0, i)] + params_of(from_index(s, i + 1))
        } else {
            seq![s]
        }
    }
}

/// How an escaped character of a tag value reads.
pub open spec fn unescape_char(c: char) -> char {
    if c == ':' {
        ';'
    } else if c == 's' {
        ' '
    } else if c == 'r' {
        '\r'
    } else if c == 'n' {
        '\n'
    } else {
        c
    }
}

/// A tag value with its escapes read; a lone `\` at the end is dropped.
pub open spec fn unescape(s: Seq<char>) -> Seq<char>
    decreases s.len(),
{
    if s.len() == 0 {
        s
    } else if s[0] == '\\' {
        if s.len() == 1 {
            Seq::empty()
        } else {
            seq![unescape_char(s[1])] + unescape(from_index(s, 2))
        }
    } else {
        seq![s[0]] + unescape(s.drop_first())
    }
}

proof fn lemma_word(s: Seq<char>, i: int)
    requires
        0 <= i <= s.len(),
        forall|j: int| 0 <= j < i ==> #[trigger] s[j] != ' ',
        i == s.len() || s[i] == ' ',
    ensures
        find(s, ' ') == i,
{
    lemma_find(s, ' ', i);
}

/// The index of the first space at or after `start`, or the length.
fn find_space(s: &Vec<char>, start: usize) -> (r: usize)
    requires
        start <= s@.len(),
    ensures
        start <= r <= s@.len(),
        find(from_index(s@, start as int), ' ') == r - start,
{
    let mut i = start;
    while i < s.len() && s[i] != ' '
        invariant
            start <= i <= s@.len(),
            forall|j: int| start <= j < i ==> #[trigger] s@[j] != ' ',
        decreases s@.len() - i,
    {
        i = i + 1;
    }
    proof {
        let t = from_index(s@, start as int);
        assert forall|j: int| 0 <= j < i - start implies #[trigger] t[j] != ' ' by {
            assert(t[j] == s@[j + start]);
        }
        if i < s@.len() {
            assert(t[i - start] == s@[i as int]);
        }
        lemma_word(t, i - start);
    }
    i
}

fn slice(s: &Vec<char>, from: usize, to: usize) -> (r: String)
    requires
        from <= to <= s@.len(),
    ensures
        r@ == s@.subrange(from as int, to as int),
{
    let mut v: Vec<char> = Vec::new();
    let mut i = from;
    while i < to
        invariant
            from <= i <= to <= s@.len(),
            v@ == s@.subrange(from as int, i as int),
        decreases to - i,
    {
        v.push(s[i]);
        i = i + 1;
        assert(v@ =~= s@.subrange(from as int, i as int));
    }
    from_chars(v.as_slice())
}

/// The parameters in `s` from index `start` on.
fn parse_params(s: &Vec<char>, start: usize) -> (r: Vec<String>)
    requires
        start <= s@.len(),
    ensures
        strs(r@) == params_of(from_index(s@, start as int)),
    decreases s@.len() - start,
{
    let ghost t = from_index(s@, start as int);
    if start == s.len() {
        let r: Vec<String> = Vec::new();
        assert(strs(r@) =~= Seq::empty());
        return r;
    }
    assert(t[0] == s@[start as int]);
    if s[start] == ':' {
        let last = slice(s, start + 1, s.len());
        assert(last@ =~= t.drop_first());
        let r = vec![last];
        assert(strs(r@) =~= seq![last@]);
        return r;
    }
    let end = find_space(s, start);
    let first = slice(s, start, end);
    assert(first@ =~= t.subrange(0, end - start));
    if end < s.len() {
        assert(from_index(t, end - start + 1) =~= from_index(s@, end + 1));
        let rest = parse_params(s, end + 1);
        let mut r = vec![first];
        let mut rest = rest;
        let ghost rv = rest@;
        r.append(&mut rest);
        assert(strs(r@) =~= seq![first@] + strs(rv));
        r
    } else {
        assert(first@ =~= t);
        let r = vec![first];
        assert(strs(r@) =~= seq![first@]);
        r
    }
}

/// Reads the escapes of a tag value.
fn unescape_value(s: &Vec<char>, start: usize) -> (r: Vec<char>)
    requires
        start <= s@.len(),
    ensures
        r@ == unescape(from_index(s@, start as int)),
    decreases s@.len() - start,
{
    let ghost t = from_index(s@, start as int);
    if start == s.len() {
        assert(t.len() == 0);
        return Vec::new();
    }
    assert(t[0] == s@[start as int]);
    if s[start] == '\\' {
        if start + 1 == s.len() {
            return Vec::new();
        }
        assert(t[1] == s@[start + 1]);
        let c = s[start + 1];
        let d = if c == ':' {
            ';'
        } else if c == 's' {
            ' '
        } else if c == 'r' {
            '\r'
        } else if c == 'n' {
            '\n'
        } else {
            c
        };
        assert(from_index(t, 2) =~= from_index(s@, start + 2));
        let rest = unescape_value(s, start + 2);
        let mut r = vec![d];
        let mut rest = rest;
        let ghost rv = rest@;
        r.append(&mut rest);
        assert(r@ =~= seq![d] + rv);
        r
    } else {
        assert(t.drop_first() =~= from_index(s@, start + 1));
        let rest = unescape_value(s, start + 1);
        let mut r = vec![s[start]];
        let mut rest = rest;
        let ghost rv = rest@;
        r.append(&mut rest);
        assert(r@ =~= seq![s@[start as int]] + rv);
        r
    }
}

/// One tag as written on the wire: a key, then optionally `=` and an escaped value.
pub open spec fn tag_of(piece: Seq<char>) -> (Seq<char>, Option<Seq<char>>) {
    let i = find(piece, '=') as int;
    if i < piece.len() {
        (piece.subrange(0, i), Some(unescape(from_index(piece, i + 1))))
    } else {
        (piece, None)
    }
}

pub open spec fn tag_views(tags: Seq<Tag>) -> Seq<(Seq<char>, Option<Seq<char>>)> {
    tags.map_values(|t: Tag| (t.key@, match t.value {
        Some(v) => Some(v@),
        None => None,
    }))
}

fn parse_tag(piece: &String) -> (r: Tag)
    ensures
        (r.key@, match r.value {
            Some(v) => Some(v@),
            None => None,
        }) == tag_of(piece@),
{
    let s = to_chars(piece.as_str());
    let mut i: usize = 0;
    while i < s.len() && s[i] != '='
        invariant
            s@ == piece@,
            i <= s@.len(),
            forall|j: int| 0 <= j < i ==> #[trigger] s@[j] != '=',
        decreases s@.len() - i,
    {
        i = i + 1;
    }
    proof {
        lemma_find(s@, '=', i as int);
    }
    let key = slice(&s, 0, i);
    if i < s.len() {
        let value = unescape_value(&s, i + 1);
        Tag { key, value: Some(from_chars(value.as_slice())) }
    } else {
        assert(key@ =~= piece@);
        Tag { key, value: None }
    }
}

/// The tags of a line: the pieces between `;`.
fn parse_tags(text: &String) -> (r: Vec<Tag>)
    ensures
        tag_views(r@) == split_on(text@, ';').map_values(|p: Seq<char>| tag_of(p)),
{
    let pieces = split(text.as_str(), ';');
    let mut tags: Vec<Tag> = Vec::new();
    let mut i: usize = 0;
    while i < pieces.len()
        invariant
            pieces@.len() == split_on(text@, ';').len(),
            forall|j: int| 0 <= j < pieces@.len() ==> #[trigger] pieces@[j]@ == split_on(text@, ';')[j],
            i <= pieces@.len(),
            tags@.len() == i,
            forall|j: int| 0 <= j < i ==> #[trigger] tag_views(tags@)[j] == tag_of(split_on(text@, ';')[j]),
        decreases pieces@.len() - i,
    {
        let t = parse_tag(&pieces[i]);
        let ghost prev = tags@;
        tags.push(t);
        proof {
            assert forall|j: int| 0 <= j < i + 1 implies #[trigger] tag_views(tags@)[j] == tag_of(
                split_on(text@, ';')[j],
            ) by {
                if j < i {
                    assert(tags@[j] == prev[j]);
                    assert(tag_views(prev)[j] == tag_of(split_on(text@, ';')[j]));
                }
            }
        }
        i = i + 1;
    }
    assert(tag_views(tags@) =~= split_on(text@, ';').map_values(|p: Seq<char>| tag_of(p)));
    tags
}

/// Who a prefix names: `nick!user@host` or `nick@host` is a user; a bare
/// name with a dot is a server, one without is a user.
pub open spec fn prefix_of(p: Seq<char>) -> (bool, Seq<char>, Seq<char>, Seq<char>) {
    let bang = find(p, '!') as int;
    if bang < p.len() {
        let rest = from_index(p, bang + 1);
        let at = find(rest, '@') as int;
        if at < rest.len() {
            (true, p.subrange(0, bang), rest.subrange(0, at), from_index(rest, at + 1))
        } else {
            (true, p.subrange(0, bang), rest, Seq::empty())
        }
    } else {
        let at = find(p, '@') as int;
        if at < p.len() {
            (true, p.subrange(0, at), Seq::empty(), from_index(p, at + 1))
        } else if p.contains('.') {
            (false, p, Seq::empty(), Seq::empty())
        } else {
            (true, p, Seq::empty(), Seq::empty())
        }
    }
}

fn find_char(s: &Vec<char>, start: usize, c: char) -> (r: usize)
    requires
        start <= s@.len(),
    ensures
        start <= r <= s@.len(),
        find(from_index(s@, start as int), c) == r - start,
{
    let mut i = start;
    while i < s.len() && s[i] != c
        invariant
            start <= i <= s@.len(),
            forall|j: int| start <= j < i ==> #[trigger] s@[j] != c,
        decreases s@.len() - i,
    {
        i = i + 1;
    }
    proof {
        let t = from_index(s@, start as int);
        assert forall|j: int| 0 <= j < i - start implies #[trigger] t[j] != c by {
            assert(t[j] == s@[j + start]);
        }
        if i < s@.len() {
            assert(t[i - start] == s@[i as int]);
        }
        lemma_find(t, c, i - start);
    }
    i
}

fn parse_prefix(p: &String) -> (r: Prefix)
    ensures
        ({
            let (user, a, b, c) = prefix_of(p@);
            match r {
                Prefix::Nickname(n, u, h) => user && n@ == a && u@ == b && h@ == c,
                Prefix::ServerName(n) => !user && n@ == a,
            }
        }),
{
    let s = to_chars(p.as_str());
    let n = s.len();
    assert(from_index(s@, 0) =~= s@);
    let bang = find_char(&s, 0, '!');
    if bang < n {
        let at = find_char(&s, bang + 1, '@');
        let nick = slice(&s, 0, bang);
        if at < n {
            let user = slice(&s, bang + 1, at);
            let host = slice(&s, at + 1, n);
            let ghost rest = from_index(s@, bang + 1);
            assert(user@ =~= rest.subrange(0, at - bang - 1));
            assert(host@ =~= from_index(rest, at - bang));
            Prefix::Nickname(nick, user, host)
        } else {
            let user = slice(&s, bang + 1, n);
            Prefix::Nickname(nick, user, String::new())
        }
    } else {
        let at = find_char(&s, 0, '@');
        if at < n {
            let nick = slice(&s, 0, at);
            let host = slice(&s, at + 1, n);
            Prefix::Nickname(nick, String::new(), host)
        } else {
            let dot = find_char(&s, 0, '.');
            proof {
                lemma_find_hit(s@, '.');
                if s@.contains('.') {
                    let j = choose|j: int| 0 <= j < s@.len() && s@[j] == '.';
                    lemma_find_first(s@, '.', j);
                }
            }
            let whole = slice(&s, 0, n);
            assert(whole@ =~= s@);
            if dot < n {
                Prefix::ServerName(whole)
            } else {
                Prefix::Nickname(whole, String::new(), String::new())
            }
        }
    }
}

proof fn lemma_find_hit(s: Seq<char>, c: char)
    ensures
        find(s, c) <= s.len(),
        find(s, c) < s.len() ==> s[find(s, c) as int] == c,
    decreases s.len(),
{
    if s.len() > 0 && s[0] != c {
        lemma_find_hit(s.drop_first(), c);
        if find(s, c) < s.len() {
            assert(s[find(s, c) as int] == s.drop_first()[find(s.drop_first(), c) as int]);
        }
    }
}

proof fn lemma_find_first(s: Seq<char>, c: char, j: int)
    requires
        0 <= j < s.len(),
        s[j] == c,
    ensures
        find(s, c) <= j,
        find(s, c) < s.len() ==> s[find(s, c) as int] == c,
    decreases s.len(),
{
    if s[0] != c {
        lemma_find_first(s.drop_first(), c, j - 1);
        if find(s.drop_first(), c) < s.drop_first().len() {
            assert(s[find(s, c) as int] == s.drop_first()[find(s.drop_first(), c) as int]);
        }
    }
}

/// The command of the given name with the given parameters: a known name in
/// capitals with a fitting number of parameters gives its own variant, a name
/// of three digits a numeric reply; anything else is kept as it came.
pub fn command_from(name: String, params: Vec<String>) -> (r: Command)
    ensures
        r.params_view() == strs(params@),
        r is Numeric ==> r->Numeric_0 < 1000,
        r.name_view() == name@,
{
    let n = params.len();
    let mut params = params;
    let ghost ps = strs(params@);
    let code = numeric_code(&name);
    match code {
        Some(c) => {
            return Command::Numeric(c, params);
        },
        None => {},
    }
    if name == String::from_str("PRIVMSG") && n == 2 {
        let text = params.pop().unwrap();
        let target = params.pop().unwrap();
        assert(ps =~= seq![target@, text@]);
        Command::PRIVMSG(target, text)
    } else if name == String::from_str("NOTICE") && n == 2 {
        let text = params.pop().unwrap();
        let target = params.pop().unwrap();
        assert(ps =~= seq![target@, text@]);
        Command::NOTICE(target, text)
    } else if name == String::from_str("NICK") && n == 1 {
        let nick = params.pop().unwrap();
        assert(ps =~= seq![nick@]);
        Command::NICK(nick)
    } else if name == String::from_str("QUIT") && n <= 1 {
        let comment = params.pop();
        assert(ps =~= opt_param(comment));
        Command::QUIT(comment)
    } else if name == String::from_str("JOIN") && (n == 1 || n == 2) {
        let keys = if n == 2 {
            params.pop()
        } else {
            None
        };
        let channel = params.pop().unwrap();
        assert(ps =~= seq![channel@] + opt_param(keys));
        Command::JOIN(channel, keys)
    } else if name == String::from_str("PART") && (n == 1 || n == 2) {
        let reason = if n == 2 {
            params.pop()
        } else {
            None
        };
        let channel = params.pop().unwrap();
        assert(ps =~= seq![channel@] + opt_param(reason));
        Command::PART(channel, reason)
    } else if name == String::from_str("PING") && n == 1 {
        let token = params.pop().unwrap();
        assert(ps =~= seq![token@]);
        Command::PING(token)
    } else if name == String::from_str("MODE") && n >= 1 {
        let target = params.remove(0);
        if params.len() > 0 {
            let modes = params.remove(0);
            assert(ps =~= seq![target@] + opt_param(Some(modes)) + strs(params@));
            Command::MODE(target, Some(modes), params)
        } else {
            assert(ps =~= seq![target@] + opt_param(None) + strs(params@));
            Command::MODE(target, None, params)
        }
    } else if name == String::from_str("BATCH") && n >= 1 {
        let reference = params.remove(0);
        assert(ps =~= seq![reference@] + strs(params@));
        Command::BATCH(reference, params)
    } else if name == String::from_str("CAP") && n >= 2 && n <= 4 {
        let b = if n == 4 {
            params.pop()
        } else {
            None
        };
        let a = if n >= 3 {
            params.pop()
        } else {
            None
        };
        let sub = params.pop().unwrap();
        let target = params.pop();
        assert(ps =~= opt_param(target) + seq![sub@] + opt_param(a) + opt_param(b));
        Command::CAP(target, sub, a, b)
    } else {
        Command::Unknown(name, params)
    }
}

fn digit_value(c: char) -> (r: Option<u16>)
    ensures
        r matches Some(d) ==> d < 10,
{
    if c >= '0' && c <= '9' {
        Some(((c as u32) - ('0' as u32)) as u16)
    } else {
        None
    }
}

/// The code of a numeric reply name: exactly three decimal digits.
fn numeric_code(name: &String) -> (r: Option<u16>)
    ensures
        r matches Some(c) ==> c < 1000 && crate::proto::numeric_name(c as nat) == name@,
{
    let s = to_chars(name.as_str());
    if s.len() != 3 {
        return None;
    }
    let code = match (digit_value(s[0]), digit_value(s[1]), digit_value(s[2])) {
        (Some(a), Some(b), Some(c)) => a * 100 + b * 10 + c,
        _ => {
            return None;
        },
    };
    let written = Command::Numeric(code, Vec::new()).command();
    if written == *name {
        Some(code)
    } else {
        None
    }
}

/// A line without its line ending.
pub open spec fn strip_line_end(s: Seq<char>) -> Seq<char> {
    let t = if s.len() > 0 && s.last() == '\n' {
        s.drop_last()
    } else {
        s
    };
    if t.len() > 0 && t.last() == '\r' {
        t.drop_last()
    } else {
        t
    }
}

/// The parts of a line: the tag text after `@`, the prefix after `:`, the
/// command name, and the parameters.
pub open spec fn line_parts(line: Seq<char>) -> (
    Option<Seq<char>>,
    Option<Seq<char>>,
    Seq<char>,
    Seq<Seq<char>>,
) {
    let s = strip_line_end(line);
    let (tags, r1) = if s.len() > 0 && s[0] == '@' {
        (Some(word(s.drop_first()).0), word(s.drop_first()).1)
    } else {
        (None, s)
    };
    let (prefix, r2) = if r1.len() > 0 && r1[0] == ':' {
        (Some(word(r1.drop_first()).0), word(r1.drop_first()).1)
    } else {
        (None, r1)
    };
    (tags, prefix, word(r2).0, params_of(word(r2).1))
}

/// The word at the start of `s[start..]`, and what follows its space.
fn word_at(s: &Vec<char>, start: usize) -> (r: (Vec<char>, Vec<char>))
    requires
        start <= s@.len(),
    ensures
        (r.0@, r.1@) == word(from_index(s@, start as int)),
{
    let e = find_space(s, start);
    let first = to_chars(slice(s, start, e).as_str());
    let ghost t = from_index(s@, start as int);
    assert(first@ =~= t.subrange(0, e - start));
    if e < s.len() {
        let rest = to_chars(slice(s, e + 1, s.len()).as_str());
        assert(rest@ =~= from_index(t, e - start + 1));
        (first, rest)
    } else {
        assert(first@ =~= t);
        (first, Vec::new())
    }
}

/// Reads one line of the protocol; a line without a command name is no message.
pub fn parse_line(line: &str) -> (r: Option<Message>)
    ensures
        ({
            let (tags, prefix, name, params) = line_parts(line@);
            &&& r is None <==> name.len() == 0
            &&& r matches Some(m) ==> {
                &&& m.command.params_view() == params
                &&& !(m.command is Numeric) ==> m.command.name_view() == name
                &&& m.command is Numeric ==> m.command.name_view() == name
                &&& tags is None ==> m.tags@.len() == 0
                &&& tags matches Some(t) ==> tag_views(m.tags@) == split_on(t, ';').map_values(
                    |p: Seq<char>| tag_of(p),
                )
                &&& prefix is None ==> m.prefix is None
            }
        }),
{
    let mut s = to_chars(line);
    if s.len() > 0 && s[s.len() - 1] == '\n' {
        s.pop();
    }
    if s.len() > 0 && s[s.len() - 1] == '\r' {
        s.pop();
    }
    assert(s@ =~= strip_line_end(line@));
    let ghost st = s@;
    let mut tags: Vec<Tag> = Vec::new();
    let mut rest = s;
    if rest.len() > 0 && rest[0] == '@' {
        assert(from_index(rest@, 1) =~= rest@.drop_first());
        let (t, r1) = word_at(&rest, 1);
        tags = parse_tags(&from_chars(t.as_slice()));
        rest = r1;
    }
    let ghost r1v = rest@;
    let mut prefix: Option<Prefix> = None;
    if rest.len() > 0 && rest[0] == ':' {
        assert(from_index(rest@, 1) =~= rest@.drop_first());
        let (p, r2) = word_at(&rest, 1);
        prefix = Some(parse_prefix(&from_chars(p.as_slice())));
        rest = r2;
    }
    assert(from_index(rest@, 0) =~= rest@);
    let (name, tail) = word_at(&rest, 0);
    if name.len() == 0 {
        return None;
    }
    assert(from_index(tail@, 0) =~= tail@);
    let params = parse_params(&tail, 0);
    let command = command_from(from_chars(name.as_slice()), params);
    Some(Message { tags, prefix, command })
}

} // verus!
