use vstd::prelude::*;

use crate::proto::{strs, Message, Tag};
use crate::text::{push_char, to_chars};

verus! {

/// How one character of a tag value is written on the wire.
pub open spec fn escape_char(c: char) -> Seq<char> {
    if c == '\\' {
        seq!['\\', '\\']
    } else if c == ';' {
        seq!['\\', ':']
    } else if c == ' ' {
        seq!['\\', 's']
    } else if c == '\r' {
        seq!['\\', 'r']
    } else if c == '\n' {
        seq!['\\', 'n']
    } else {
        seq![c]
    }
}

/// A tag value with each character escaped.
pub open spec fn escape(s: Seq<char>) -> Seq<char>
    decreases s.len(),
{
    if s.len() == 0 {
        Seq::empty()
    } else {
        escape(s.drop_last()) + escape_char(s.last())
    }
}

/// The pieces, with `sep` between each two neighbours.
pub open spec fn join(pieces: Seq<Seq<char>>, sep: char) -> Seq<char>
    decreases pieces.len(),
{
    if pieces.len() == 0 {
        Seq::empty()
    } else if pieces.len() == 1 {
        pieces[0]
    } else {
        join(pieces.drop_last(), sep).push(sep) + pieces.last()
    }
}

/// One tag on the wire: the key, then `=` and the escaped value if there is one.
pub open spec fn tag_text(key: Seq<char>, value: Option<Seq<char>>) -> Seq<char> {
    match value {
        Some(v) => key.push('=') + escape(v),
        None => key,
    }
}

pub open spec fn tag_view(t: Tag) -> Seq<char> {
    match t.value {
        Some(v) => tag_text(t.key@, Some(v@)),
        None => tag_text(t.key@, None),
    }
}

/// The tags on the wire, separated by `;`.
pub open spec fn tags_text(tags: Seq<Tag>) -> Seq<char> {
    join(tags.map_values(|t: Tag| tag_view(t)), ';')
}

/// The last parameter is marked with a leading `:` when it holds a space, is
/// empty, or itself starts with `:`.
pub open spec fn trailing_text(p: Seq<char>) -> Seq<char> {
    if p.contains(' ') || p.len() == 0 || p[0] == ':' {
        seq![':'] + p
    } else {
        p
    }
}

/// The parameters on the wire, separated by spaces, the last one marked as trailing.
pub open spec fn params_text(ps: Seq<Seq<char>>) -> Seq<char> {
    join(
        ps.map(|i: int, p: Seq<char>| if i == ps.len() - 1 { trailing_text(p) } else { p }),
        ' ',
    )
}

/// A whole line on the wire, ending in CR LF.
pub open spec fn message_text(m: Message) -> Seq<char> {
    let body = m.command.name_view().push(' ') + params_text(m.command.params_view()) + seq![
        '\r',
        '\n',
    ];
    if m.tags@.len() == 0 {
        body
    } else {
        seq!['@'] + tags_text(m.tags@) + seq![' '] + body
    }
}

/// Escapes a tag value.
fn escape_value(value: &str) -> (r: String)
    ensures
        r@ == escape(value@),
{
    let chars = to_chars(value);
    let mut r = String::new();
    let mut i: usize = 0;
    while i < chars.len()
        invariant
            chars@ == value@,
            i <= chars@.len(),
            r@ == escape(value@.subrange(0, i as int)),
        decreases chars@.len() - i,
    {
        let c = chars[i];
        proof {
            assert(value@.subrange(0, i + 1).drop_last() =~= value@.subrange(0, i as int));
        }
        if c == '\\' {
            push_char(&mut r, '\\');
            push_char(&mut r, '\\');
        } else if c == ';' {
            push_char(&mut r, '\\');
            push_char(&mut r, ':');
        } else if c == ' ' {
            push_char(&mut r, '\\');
            push_char(&mut r, 's');
        } else if c == '\r' {
            push_char(&mut r, '\\');
            push_char(&mut r, 'r');
        } else if c == '\n' {
            push_char(&mut r, '\\');
            push_char(&mut r, 'n');
        } else {
            push_char(&mut r, c);
        }
        i = i + 1;
        assert(r@ =~= escape(value@.subrange(0, i as int)));
    }
    assert(value@.subrange(0, chars@.len() as int) =~= value@);
    r
}

/// One tag on the wire.
pub fn tag(t: &Tag) -> (r: String)
    ensures
        r@ == tag_view(*t),
{
    match &t.value {
        Some(value) => {
            let mut r = t.key.clone();
            push_char(&mut r, '=');
            let escaped = escape_value(value.as_str());
            r.append(escaped.as_str());
            r
        },
        None => t.key.clone(),
    }
}

/// Joins the pieces with `sep`.
pub fn join_with(pieces: &Vec<String>, sep: char) -> (r: String)
    ensures
        r@ == join(strs(pieces@), sep),
{
    let mut r = String::new();
    let mut i: usize = 0;
    while i < pieces.len()
        invariant
            i <= pieces@.len(),
            r@ == join(strs(pieces@.subrange(0, i as int)), sep),
        decreases pieces@.len() - i,
    {
        proof {
            assert(strs(pieces@.subrange(0, i + 1)).drop_last() =~= strs(
                pieces@.subrange(0, i as int),
            ));
        }
        if i > 0 {
            push_char(&mut r, sep);
        }
        r.append(pieces[i].as_str());
        i = i + 1;
        proof {
            if i == 1 {
                assert(r@ =~= join(strs(pieces@.subrange(0, i as int)), sep));
            }
        }
    }
    assert(pieces@.subrange(0, pieces@.len() as int) =~= pieces@);
    r
}

/// The tags of a message on the wire, separated by `;`.
pub fn tags(list: Vec<Tag>) -> (r: String)
    ensures
        r@ == tags_text(list@),
{
    let mut pieces: Vec<String> = Vec::new();
    let mut i: usize = 0;
    while i < list.len()
        invariant
            i <= list@.len(),
            pieces@.len() == i,
            forall|j: int| 0 <= j < i ==> #[trigger] pieces@[j]@ == tag_view(list@[j]),
        decreases list@.len() - i,
    {
        pieces.push(tag(&list[i]));
        i = i + 1;
    }
    let r = join_with(&pieces, ';');
    assert(strs(pieces@) =~= list@.map_values(|t: Tag| tag_view(t)));
    r
}

/// A parameter in last position on the wire.
pub fn trailing(parameter: &str) -> (r: String)
    ensures
        r@ == trailing_text(parameter@),
{
    let chars = to_chars(parameter);
    let mut has_space = false;
    let mut i: usize = 0;
    while i < chars.len()
        invariant
            chars@ == parameter@,
            i <= chars@.len(),
            has_space == chars@.subrange(0, i as int).contains(' '),
        decreases chars@.len() - i,
    {
        proof {
            let s = chars@.subrange(0, i + 1);
            if s.contains(' ') && chars@[i as int] != ' ' {
                let k = choose|k: int| 0 <= k < s.len() && s[k] == ' ';
                assert(chars@.subrange(0, i as int)[k] == ' ');
            }
            if chars@[i as int] == ' ' {
                assert(s[i as int] == ' ');
            }
            if has_space {
                let k = choose|k: int|
                    0 <= k < i && chars@.subrange(0, i as int)[k] == ' ';
                assert(s[k] == ' ');
            }
        }
        if chars[i] == ' ' {
            has_space = true;
        }
        i = i + 1;
    }
    assert(chars@.subrange(0, chars@.len() as int) =~= parameter@);
    if has_space || chars.len() == 0 || chars[0] == ':' {
        let mut r = String::new();
        push_char(&mut r, ':');
        r.append(parameter);
        r
    } else {
        String::from_str(parameter)
    }
}

/// The parameters of a command on the wire.
pub fn parameters(params: Vec<String>) -> (r: String)
    ensures
        r@ == params_text(strs(params@)),
{
    let n = params.len();
    let mut pieces: Vec<String> = Vec::new();
    let mut i: usize = 0;
    let ghost ps = strs(params@);
    let ghost marked = ps.map(
        |i: int, p: Seq<char>| if i == ps.len() - 1 { trailing_text(p) } else { p },
    );
    while i < n
        invariant
            n == params@.len(),
            ps == strs(params@),
            marked == ps.map(
                |i: int, p: Seq<char>| if i == ps.len() - 1 { trailing_text(p) } else { p },
            ),
            i <= n,
            pieces@.len() == i,
            forall|j: int| 0 <= j < i ==> #[trigger] pieces@[j]@ == marked[j],
        decreases n - i,
    {
        if i + 1 == n {
            pieces.push(trailing(params[i].as_str()));
        } else {
            pieces.push(params[i].clone());
        }
        i = i + 1;
    }
    let r = join_with(&pieces, ' ');
    assert(strs(pieces@) =~= marked);
    r
}

/// A message as one line on the wire.
pub fn message(m: Message) -> (r: String)
    requires
        m.command is Numeric ==> m.command->Numeric_0 < 1000,
    ensures
        r@ == message_text(m),
{
    let command = m.command.command();
    let params = parameters(m.command.parameters());
    let mut r = String::new();
    if m.tags.len() > 0 {
        let tag_text = tags(m.tags);
        push_char(&mut r, '@');
        r.append(tag_text.as_str());
        push_char(&mut r, ' ');
    }
    r.append(command.as_str());
    push_char(&mut r, ' ');
    r.append(params.as_str());
    push_char(&mut r, '\r');
    push_char(&mut r, '\n');
    r
}

} // verus!
