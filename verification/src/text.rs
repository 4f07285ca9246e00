//! Building blocks of the messages shown to the user: numbers in decimal
//! and lists joined by a separator.
use vstd::prelude::*;
use vstd::string::StringExecFns;

verus! {

/// The decimal digit of a value below ten.
pub open spec fn digit_char(digit: int) -> char {
    seq!['0', '1', '2', '3', '4', '5', '6', '7', '8', '9'][digit]
}

/// A number in decimal, without leading zeros.
pub open spec fn decimal(n: nat) -> Seq<char>
    decreases n,
{
    if n < 10 {
        seq![digit_char(n as int)]
    } else {
        decimal(n / 10).push(digit_char((n % 10) as int))
    }
}

/// The texts that a list of strings holds.
pub open spec fn texts(parts: Seq<String>) -> Seq<Seq<char>> {
    Seq::new(parts.len(), |i: int| parts[i]@)
}

/// The parts in order, with the separator between each two of them.
pub open spec fn joined(parts: Seq<Seq<char>>, separator: Seq<char>) -> Seq<char>
    decreases parts.len(),
{
    if parts.len() == 0 {
        Seq::empty()
    } else if parts.len() == 1 {
        parts[0]
    } else {
        joined(parts.drop_last(), separator) + separator + parts.last()
    }
}

/// The first `limit` items of a list, or all of them where it has fewer.
pub open spec fn first<T>(items: Seq<T>, limit: int) -> Seq<T> {
    if limit <= 0 {
        Seq::empty()
    } else if limit < items.len() {
        items.take(limit)
    } else {
        items
    }
}

/// One decimal digit as a text.
fn digit_text(digit: usize) -> (text: &'static str)
    requires
        digit < 10,
    ensures
        text@ == seq![digit_char(digit as int)],
{
    proof {
        reveal_strlit("0");
        reveal_strlit("1");
        reveal_strlit("2");
        reveal_strlit("3");
        reveal_strlit("4");
        reveal_strlit("5");
        reveal_strlit("6");
        reveal_strlit("7");
        reveal_strlit("8");
        reveal_strlit("9");
    }
    let text = match digit {
        0 => "0",
        1 => "1",
        2 => "2",
        3 => "3",
        4 => "4",
        5 => "5",
        6 => "6",
        7 => "7",
        8 => "8",
        _ => "9",
    };
    assert(text@ =~= seq![digit_char(digit as int)]);
    text
}

/// A count in decimal.
pub fn count_text(n: usize) -> (text: String)
    ensures
        text@ == decimal(n as nat),
    decreases n,
{
    if n < 10 {
        String::from_str(digit_text(n))
    } else {
        let higher = count_text(n / 10);
        let text = higher.concat(digit_text(n % 10));
        assert(text@ =~= decimal(n as nat));
        text
    }
}

/// The first `limit` parts in order, with the separator between each two
/// of them.
pub fn join_first(parts: &Vec<String>, limit: usize, separator: &str) -> (text: String)
    ensures
        text@ == joined(texts(first(parts@, limit as int)), separator@),
{
    let count: usize = if limit < parts.len() {
        limit
    } else {
        parts.len()
    };
    let ghost chosen = texts(first(parts@, limit as int));
    assert(chosen.len() == count);
    let mut text = String::new();
    let mut i: usize = 0;
    while i < count
        invariant
            i <= count,
            count <= parts.len(),
            chosen.len() == count,
            forall|k: int| 0 <= k < count ==> #[trigger] chosen[k] == parts[k]@,
            text@ == joined(chosen.take(i as int), separator@),
        decreases count - i,
    {
        let ghost earlier = chosen.take(i as int);
        let ghost next = chosen.take(i + 1);
        assert(next.drop_last() =~= earlier);
        assert(next.last() == parts[i as int]@);
        if i > 0 {
            text.append(separator);
        }
        text.append(parts[i].as_str());
        assert(text@ =~= joined(next, separator@));
        i = i + 1;
    }
    assert(chosen.take(count as int) =~= chosen);
    text
}

/// The parts in order, with the separator between each two of them.
pub fn join(parts: &Vec<String>, separator: &str) -> (text: String)
    ensures
        text@ == joined(texts(parts@), separator@),
{
    join_first(parts, parts.len(), separator)
}

} // verus!
