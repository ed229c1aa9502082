//! Small verified helpers for assembling output text.
use vstd::prelude::*;

verus! {

/// `String::push` appends one character to the end of the string.
pub assume_specification[ String::push ](text: &mut String, c: char)
    ensures
        final(text)@ == old(text)@.push(c),
;

/// The views of a list of strings, in order.
pub open spec fn texts(items: Seq<String>) -> Seq<Seq<char>> {
    items.map_values(|item: String| item@)
}

/// `count` copies of `c`.
pub open spec fn repeated(c: char, count: nat) -> Seq<char> {
    Seq::new(count, |i: int| c)
}

/// `parts` written one after another with `separator` between neighbours.
pub open spec fn joined(parts: Seq<Seq<char>>, separator: Seq<char>) -> Seq<char>
    decreases parts.len(),
{
    if parts.len() == 0 {
        Seq::empty()
    } else if parts.len() == 1 {
        parts[0]
    } else {
        joined(parts.drop_last(), separator) + separator + parts.last()
    }
}

/// The HTML comment that stands in for something that could not be translated.
pub open spec fn diagnostic(label: Seq<char>, detail: Seq<char>) -> Seq<char> {
    "<!-- "@ + label + ": "@ + detail + " -->"@
}

/// Builds a string of `count` copies of `c`.
pub fn repeat_char(c: char, count: usize) -> (out: String)
    ensures
        out@ == repeated(c, count as nat),
{
    let mut out = String::new();
    let mut i: usize = 0;
    while i < count
        invariant
            i <= count,
            out@ == repeated(c, i as nat),
        decreases count - i,
    {
        out.push(c);
        assert(out@ =~= repeated(c, (i + 1) as nat));
        i += 1;
    }
    assert(out@ =~= repeated(c, count as nat));
    out
}

/// Joins `parts` with `separator`.
pub fn join(parts: &Vec<String>, separator: &str) -> (out: String)
    ensures
        out@ == joined(texts(parts@), separator@),
{
    let mut out = String::new();
    let mut i: usize = 0;
    while i < parts.len()
        invariant
            i <= parts.len(),
            out@ == joined(texts(parts@).take(i as int), separator@),
        decreases parts.len() - i,
    {
        proof {
            let next = texts(parts@).take(i + 1);
            assert(next.drop_last() =~= texts(parts@).take(i as int));
            assert(next.last() == parts@[i as int]@);
        }
        if i > 0 {
            out.append(separator);
        }
        out.append(parts[i].as_str());
        assert(out@ =~= joined(texts(parts@).take(i + 1), separator@));
        i += 1;
    }
    assert(texts(parts@).take(parts.len() as int) =~= texts(parts@));
    out
}

/// Builds the comment `<!-- label: detail -->`.
pub fn diagnostic_text(label: &str, detail: &str) -> (out: String)
    ensures
        out@ == diagnostic(label@, detail@),
{
    let mut out = String::from_str("<!-- ");
    out.append(label);
    out.append(": ");
    out.append(detail);
    out.append(" -->");
    out
}

/// `prefix`, `body` and `suffix` written one after another.
pub fn enclose(prefix: &str, body: &str, suffix: &str) -> (out: String)
    ensures
        out@ == prefix@ + body@ + suffix@,
{
    let mut out = String::from_str(prefix);
    out.append(body);
    out.append(suffix);
    out
}

/// The characters of `text`, one element each.
pub fn chars_of(text: &str) -> (chars: Vec<char>)
    ensures
        chars@ == text@,
{
    let mut chars: Vec<char> = Vec::new();
    for c in it: text.chars()
        invariant
            it.seq() == text@,
            chars@ == text@.take(it.index() as int),
    {
        chars.push(c);
    }
    assert(text@.take(text@.len() as int) =~= text@);
    chars
}

/// Appends `chars[from..to]` to `out`.
pub(crate) fn push_chars(out: &mut String, chars: &Vec<char>, from: usize, to: usize)
    requires
        from <= to <= chars.len(),
    ensures
        final(out)@ == old(out)@ + chars@.subrange(from as int, to as int),
{
    let mut i: usize = from;
    while i < to
        invariant
            from <= i <= to <= chars.len(),
            out@ == old(out)@ + chars@.subrange(from as int, i as int),
        decreases to - i,
    {
        out.push(chars[i]);
        assert(chars@.subrange(from as int, i + 1) =~= chars@.subrange(from as int, i as int).push(
            chars@[i as int],
        ));
        i += 1;
    }
}

/// Whether `c` occurs in `text`.
pub fn contains_char(text: &str, c: char) -> (found: bool)
    ensures
        found == text@.contains(c),
{
    let mut found = false;
    for next in it: text.chars()
        invariant
            it.seq() == text@,
            found == text@.take(it.index() as int).contains(c),
    {
        proof {
            let before = text@.take(it.index() as int);
            let after = text@.take(it.index() + 1);
            assert(after =~= before.push(next));
            if before.contains(c) {
                let k = choose|k: int| 0 <= k < before.len() && before[k] == c;
                assert(after[k] == c);
            }
            if next == c {
                assert(after[before.len() as int] == c);
            }
        }
        if next == c {
            found = true;
        }
    }
    assert(text@.take(text@.len() as int) =~= text@);
    found
}

} // verus!
