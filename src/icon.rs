use vstd::prelude::*;

verus! {

// The glyphs of the icon font, by the meaning they carry in the interface.
pub fn dot() -> (r: char)
    ensures
        r == '\u{f287}',
{
    '\u{f287}'
}

pub fn error() -> (r: char)
    ensures
        r == '\u{f33a}',
{
    '\u{f33a}'
}

pub fn globe() -> (r: char)
    ensures
        r == '\u{f3ef}',
{
    '\u{f3ef}'
}

pub fn wifi_off() -> (r: char)
    ensures
        r == '\u{f61b}',
{
    '\u{f61b}'
}

pub fn close() -> (r: char)
    ensures
        r == '\u{f659}',
{
    '\u{f659}'
}

pub fn maximize() -> (r: char)
    ensures
        r == '\u{f14a}',
{
    '\u{f14a}'
}

pub fn restore() -> (r: char)
    ensures
        r == '\u{f149}',
{
    '\u{f149}'
}

pub fn people() -> (r: char)
    ensures
        r == '\u{f4db}',
{
    '\u{f4db}'
}

pub fn topic() -> (r: char)
    ensures
        r == '\u{f5af}',
{
    '\u{f5af}'
}

pub fn file_transfer() -> (r: char)
    ensures
        r == '\u{f30a}',
{
    '\u{f30a}'
}

pub fn arrow_down() -> (r: char)
    ensures
        r == '\u{f128}',
{
    '\u{f128}'
}

pub fn arrow_up() -> (r: char)
    ensures
        r == '\u{f148}',
{
    '\u{f148}'
}

pub fn download() -> (r: char)
    ensures
        r == '\u{f30a}',
{
    '\u{f30a}'
}

pub fn trashcan() -> (r: char)
    ensures
        r == '\u{f5de}',
{
    '\u{f5de}'
}

pub fn folder() -> (r: char)
    ensures
        r == '\u{f3d8}',
{
    '\u{f3d8}'
}

pub fn search() -> (r: char)
    ensures
        r == '\u{f52a}',
{
    '\u{f52a}'
}

pub fn secure() -> (r: char)
    ensures
        r == '\u{f538}',
{
    '\u{f538}'
}

} // verus!
