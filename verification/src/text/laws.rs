//! What the operations on text come to.
use vstd::prelude::*;

use crate::text::{self, CharClass};

verus! {

/// A text begins with another, ends with it or holds it if and only if it is that text
/// with something behind it, before it, or on both sides.
pub proof fn law_parts_of_a_text(a: Seq<char>, part: Seq<char>, b: Seq<char>, whole: Seq<char>)
    ensures
        text::begins_with(part + b, part),
        text::after_prefix(part + b, part) == Some(b),
        text::begins_with(whole, part) ==> whole == part + whole.skip(part.len() as int),
        text::begins_with(whole, part) <==> text::after_prefix(whole, part) is Some,
        text::ends_with(a + part, part),
        text::ends_with(whole, part) ==> whole == whole.take(whole.len() - part.len()) + part,
        text::has_part(a + part + b, part),
        text::has_part(whole, part) ==> exists|i: int|
            0 <= i && i + part.len() <= whole.len() && #[trigger] whole.subrange(
                i,
                i + part.len(),
            ) == part,
{
    assert((part + b).take(part.len() as int) =~= part);
    assert((part + b).skip(part.len() as int) =~= b);
    assert((a + part).skip((a + part).len() - part.len()) =~= part);
    if text::begins_with(whole, part) {
        assert(whole =~= part + whole.skip(part.len() as int));
    }
    if text::ends_with(whole, part) {
        assert(whole =~= whole.take(whole.len() - part.len()) + part);
    }
    let all = a + part + b;
    let n = a.len() as int;
    assert(all.skip(n) =~= part + b);
    assert(text::begins_with(all.skip(n), part));
    if text::has_part(whole, part) {
        let i = choose|i: int|
            0 <= i <= whole.len() && #[trigger] text::begins_with(whole.skip(i), part);
        assert(whole.subrange(i, i + part.len()) =~= whole.skip(i).take(part.len() as int));
    }
}

/// The characters of each class.
pub proof fn law_classes(c: char)
    ensures
        CharClass::LineBreak.holds(c) <==> c == '\r' || c == '\n',
        CharClass::CarriageReturn.holds(c) <==> c == '\r',
        CharClass::Slash.holds(c) <==> c == '/',
        CharClass::WhiteSpace.holds(c) <==> {
            let n = c as u32;
            ||| 9 <= n <= 13
            ||| n == 32
            ||| n == 133
            ||| n == 160
            ||| n == 5760
            ||| 8192 <= n <= 8202
            ||| n == 8232
            ||| n == 8233
            ||| n == 8239
            ||| n == 8287
            ||| n == 12288
        },
{
}

/// Trimming at the front takes away the characters of the class that stand there, all of
/// them and nothing else.
pub proof fn law_trimmed_front(gone: Seq<char>, kept: Seq<char>, class: CharClass)
    requires
        forall|i: int| 0 <= i < gone.len() ==> class.holds(#[trigger] gone[i]),
        kept.len() > 0 ==> !class.holds(kept[0]),
    ensures
        text::trim_front(gone + kept, class) == kept,
    decreases gone.len(),
{
    let whole = gone + kept;
    if gone.len() == 0 {
        assert(whole =~= kept);
    } else {
        let fewer = gone.drop_first();
        assert forall|i: int| 0 <= i < fewer.len() implies class.holds(#[trigger] fewer[i]) by {
            assert(fewer[i] == gone[i + 1]);
        }
        law_trimmed_front(fewer, kept, class);
        assert(whole[0] == gone[0]);
        assert(whole.drop_first() =~= fewer + kept);
    }
}

/// Trimming at the back takes away the characters of the class that stand there, all of
/// them and nothing else.
pub proof fn law_trimmed_back(kept: Seq<char>, gone: Seq<char>, class: CharClass)
    requires
        forall|i: int| 0 <= i < gone.len() ==> class.holds(#[trigger] gone[i]),
        kept.len() > 0 ==> !class.holds(kept.last()),
    ensures
        text::trim_back(kept + gone, class) == kept,
    decreases gone.len(),
{
    let whole = kept + gone;
    if gone.len() == 0 {
        assert(whole =~= kept);
    } else {
        let fewer = gone.drop_last();
        assert forall|i: int| 0 <= i < fewer.len() implies class.holds(#[trigger] fewer[i]) by {
            assert(fewer[i] == gone[i]);
        }
        law_trimmed_back(kept, fewer, class);
        assert(whole.last() == gone.last());
        assert(gone[gone.len() - 1] == gone.last());
        assert(whole.drop_last() =~= kept + fewer);
    }
}

/// A text between white space is what is left of it when that goes; of white space alone
/// nothing is left.
pub proof fn law_trimmed(before: Seq<char>, kept: Seq<char>, behind: Seq<char>)
    requires
        forall|i: int| 0 <= i < before.len() ==> text::is_white_space(#[trigger] before[i]),
        forall|i: int| 0 <= i < behind.len() ==> text::is_white_space(#[trigger] behind[i]),
        kept.len() > 0 ==> !text::is_white_space(kept[0]) && !text::is_white_space(kept.last()),
    ensures
        text::trim_both(before + (kept + behind)) == kept,
{
    let class = CharClass::WhiteSpace;
    if kept.len() > 0 {
        law_trimmed_front(before, kept + behind, class);
        law_trimmed_back(kept, behind, class);
    } else {
        let all = before + behind;
        assert(before + (kept + behind) =~= all + Seq::<char>::empty());
        assert forall|i: int| 0 <= i < all.len() implies class.holds(#[trigger] all[i]) by {
            if i < before.len() {
                assert(all[i] == before[i]);
            } else {
                assert(all[i] == behind[i - before.len()]);
            }
        }
        law_trimmed_front(all, Seq::empty(), class);
        assert(kept =~= Seq::<char>::empty());
    }
}

/// What follows the first mark of a text is what stands behind it.
pub proof fn law_after_the_first_mark(head: Seq<char>, mark: char, tail: Seq<char>)
    requires
        forall|i: int| 0 <= i < head.len() ==> (#[trigger] head[i]) != mark,
    ensures
        text::after_first(head.push(mark) + tail, mark) == Some(tail),
        text::after_first(head, mark) is None,
{
    lemma_first(head, mark, tail);
    assert((head.push(mark) + tail).skip(head.len() as int + 1) =~= tail);
}

proof fn lemma_first(head: Seq<char>, mark: char, tail: Seq<char>)
    requires
        forall|i: int| 0 <= i < head.len() ==> (#[trigger] head[i]) != mark,
    ensures
        text::first_at(head.push(mark) + tail, mark) == Some(head.len() as int),
        text::first_at(head, mark) is None,
    decreases head.len(),
{
    let whole = head.push(mark) + tail;
    if head.len() > 0 {
        let rest = head.drop_first();
        assert forall|i: int| 0 <= i < rest.len() implies (#[trigger] rest[i]) != mark by {
            assert(rest[i] == head[i + 1]);
        }
        lemma_first(rest, mark, tail);
        assert(whole.drop_first() =~= rest.push(mark) + tail);
        assert(whole[0] == head[0]);
    }
}

/// Pieces that a mark separates hold no mark, and put together with it they are the text
/// again.
pub proof fn law_pieces_of_a_text(whole: Seq<char>, mark: char)
    ensures
        text::split_on(whole, mark).len() > 0,
        text::joined(text::split_on(whole, mark), seq![mark]) == whole,
        forall|i: int, j: int|
            0 <= i < text::split_on(whole, mark).len() && 0 <= j < text::split_on(
                whole,
                mark,
            )[i].len() ==> (#[trigger] text::split_on(whole, mark)[i][j]) != mark,
    decreases whole.len(),
{
    let gap = seq![mark];
    if whole.len() == 0 {
        assert(whole =~= Seq::<char>::empty());
    } else {
        let rest = whole.drop_last();
        let last = whole.last();
        law_pieces_of_a_text(rest, mark);
        let before = text::split_on(rest, mark);
        let now = text::split_on(whole, mark);
        let n = before.len() as int;
        assert(rest.push(last) =~= whole);
        if last == mark {
            assert(now.drop_last() =~= before);
            assert(text::joined(now, gap) =~= rest + gap + Seq::<char>::empty());
            assert(rest + gap + Seq::<char>::empty() =~= whole);
        } else {
            assert(now.drop_last() =~= before.drop_last());
            assert(now.last() == before.last().push(last));
            if n > 1 {
                let head = text::joined(before.drop_last(), gap) + gap;
                assert(head + before.last().push(last) =~= (head + before.last()).push(last));
            } else {
                assert(now.len() == 1);
                assert(now[0] == before[0].push(last));
            }
            assert(text::joined(now, gap) =~= whole);
        }
        assert forall|i: int, j: int| 0 <= i < now.len() && 0 <= j < now[i].len() implies (
        #[trigger] now[i][j]) != mark by {
            if i < n - 1 {
                assert(now[i] == before[i]);
                assert(before[i][j] != mark);
            } else if i == n - 1 {
                if last == mark {
                    assert(now[i] == before[i]);
                    assert(before[i][j] != mark);
                } else if j < before[i].len() {
                    assert(now[i][j] == before[i][j]);
                }
            }
        }
    }
}

/// One more text stands behind the others, with the gap between; a first one stands
/// alone.
pub proof fn law_joined_texts(parts: Seq<Seq<char>>, part: Seq<char>, gap: Seq<char>)
    ensures
        text::joined(Seq::empty(), gap) == Seq::<char>::empty(),
        text::joined(seq![part], gap) == part,
        parts.len() > 0 ==> text::joined(parts.push(part), gap) == text::joined(parts, gap) + gap
            + part,
{
    assert(parts.push(part).drop_last() =~= parts);
}

/// Small letters are those of ASCII capitals, and all else stays.
pub proof fn law_small_letters(whole: Seq<char>, i: int)
    requires
        0 <= i < whole.len(),
    ensures
        text::lower(whole).len() == whole.len(),
        'A' <= whole[i] <= 'Z' ==> text::lower(whole)[i] as u32 == whole[i] as u32 + 32,
        !('A' <= whole[i] <= 'Z') ==> text::lower(whole)[i] == whole[i],
        text::lower(text::lower(whole)) == text::lower(whole),
{
    assert(text::lower(text::lower(whole)) =~= text::lower(whole));
}

/// The number that digits of a base stand for.
pub open spec fn value_of(digits: Seq<char>, base: nat) -> nat
    decreases digits.len(),
{
    if digits.len() == 0 {
        0
    } else {
        value_of(digits.drop_last(), base) * base + digit_value(digits.last())
    }
}

/// The number that a digit stands for.
pub open spec fn digit_value(c: char) -> nat {
    if '0' <= c <= '9' {
        (c as u32 - 48) as nat
    } else if 'a' <= c <= 'f' {
        (c as u32 - 87) as nat
    } else {
        0
    }
}

/// A digit is written as one, and stands for what it was made of.
proof fn lemma_digit(d: nat)
    requires
        d < 16,
    ensures
        digit_value(text::digit(d)) == d,
        d < 10 ==> '0' <= text::digit(d) <= '9',
        '0' <= text::digit(d) <= '9' || 'a' <= text::digit(d) <= 'f',
{
    assert(text::digit(d) as u32 == if d < 10 { 48 + d } else { 87 + d });
}

/// A number written in base ten is read as that number, is made of digits, and begins
/// with none that is zero but where it is zero.
pub proof fn law_decimal(n: nat)
    ensures
        value_of(text::decimal(n), 10) == n,
        text::decimal(n).len() > 0,
        forall|i: int|
            0 <= i < text::decimal(n).len() ==> '0' <= (#[trigger] text::decimal(n)[i]) <= '9',
        n > 0 ==> text::decimal(n)[0] != '0',
        n == 0 ==> text::decimal(n).len() == 1,
    decreases n,
{
    lemma_digit(n % 10);
    if n < 10 {
        let one = text::decimal(n);
        assert(one.drop_last() =~= Seq::<char>::empty());
        assert(value_of(one.drop_last(), 10) == 0);
        assert(text::digit(n) as u32 == 48 + n);
    } else {
        law_decimal(n / 10);
        let before = text::decimal(n / 10);
        let all = text::decimal(n);
        assert(all.drop_last() =~= before);
        assert forall|i: int| 0 <= i < all.len() implies '0' <= (#[trigger] all[i]) <= '9' by {
            if i < before.len() {
                assert(all[i] == before[i]);
            }
        }
        assert(all[0] == before[0]);
    }
}

/// A number written in some digits of base sixteen has that many digits, and is read as
/// that number where they can hold it.
pub proof fn law_hex(n: nat, width: nat)
    requires
        n < vstd::arithmetic::power::pow(16, width),
    ensures
        text::hex(n, width).len() == width,
        value_of(text::hex(n, width), 16) == n,
        forall|i: int|
            0 <= i < width ==> {
                let c = #[trigger] text::hex(n, width)[i];
                '0' <= c <= '9' || 'a' <= c <= 'f'
            },
    decreases width,
{
    reveal(vstd::arithmetic::power::pow);
    if width > 0 {
        let fewer = (width - 1) as nat;
        law_hex(n / 16, fewer);
        lemma_digit(n % 16);
        let before = text::hex(n / 16, fewer);
        let all = text::hex(n, width);
        assert(all.drop_last() =~= before);
        assert forall|i: int| 0 <= i < width implies {
            let c = #[trigger] all[i];
            '0' <= c <= '9' || 'a' <= c <= 'f'
        } by {
            if i < before.len() {
                assert(all[i] == before[i]);
            }
        }
    }
}

/// One text comes before another if and only if it is a part that the other begins with
/// and is shorter, or has the smaller character where they first differ.
pub proof fn law_order_of_texts(
    same: Seq<char>,
    a: Seq<char>,
    b: Seq<char>,
)
    ensures
        a.len() == 0 && b.len() > 0 ==> text::precedes(same + a, same + b),
        b.len() == 0 ==> !text::precedes(same + a, same + b),
        a.len() > 0 && b.len() > 0 && a[0] != b[0] ==> text::precedes(same + a, same + b) == (a[0]
            < b[0]),
    decreases same.len(),
{
    if same.len() == 0 {
        assert(same + a =~= a);
        assert(same + b =~= b);
    } else {
        law_order_of_texts(same.drop_first(), a, b);
        assert((same + a).drop_first() =~= same.drop_first() + a);
        assert((same + b).drop_first() =~= same.drop_first() + b);
    }
}

}
