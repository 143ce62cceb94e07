//! Text helpers: comparison, search, ordering and decimal rendering.

use crate::views::views;
use vstd::prelude::*;
use vstd::utf8::*;

verus! {

/// Whether two strings hold the same characters.
pub fn same_text(a: &str, b: &str) -> (same: bool)
    ensures
        same == (a@ == b@),
{
    let x = a.as_bytes();
    let y = b.as_bytes();
    proof {
        encode_utf8_decode_utf8(a@);
        encode_utf8_decode_utf8(b@);
    }
    if x.len() != y.len() {
        return false;
    }
    let mut i: usize = 0;
    while i < x.len()
        invariant
            i <= x.len(),
            x.len() == y.len(),
            x@ == encode_utf8(a@),
            y@ == encode_utf8(b@),
            forall|k: int| 0 <= k < i ==> x@[k] == y@[k],
        decreases x.len() - i,
    {
        if x[i] != y[i] {
            return false;
        }
        i += 1;
    }
    assert(x@ =~= y@);
    true
}

/// Bytes read as UTF-8, with a replacement character in place of what is not.
pub uninterp spec fn utf8_lossy(bytes: Seq<u8>) -> Seq<char>;

/// The text that bytes stand for.
pub open spec fn bytes_text(bytes: Seq<u8>) -> Seq<char> {
    if valid_utf8(bytes) {
        decode_utf8(bytes)
    } else {
        utf8_lossy(bytes)
    }
}

/// `String::from_utf8_lossy` reads bytes as UTF-8. Of valid UTF-8 it gives the characters; how
/// other bytes are replaced is not said here.
#[verifier::external_body]
pub(crate) fn lossy_text(bytes: &[u8]) -> (text: String)
    ensures
        text@ == utf8_lossy(bytes@),
        valid_utf8(bytes@) ==> text@ == decode_utf8(bytes@),
{
    String::from_utf8_lossy(bytes).to_string()
}

/// Appends a character to a string, as `String::push` documents it.
pub assume_specification[ String::push ](text: &mut String, c: char)
    ensures
        final(text)@ == old(text)@.push(c),
;

/// The characters of a string.
pub fn chars_of(text: &str) -> (chars: Vec<char>)
    ensures
        chars@ == text@,
{
    let mut chars: Vec<char> = Vec::new();
    for c in it: text.chars()
        invariant
            chars@ == it.seq().take(it.index()),
            it.seq() == text@,
    {
        chars.push(c);
    }
    assert(chars@ =~= text@);
    chars
}

/// `f` of every element, one after the other.
pub open spec fn flat<A, B>(s: Seq<A>, f: spec_fn(A) -> Seq<B>) -> Seq<B>
    decreases s.len(),
{
    if s.len() == 0 {
        Seq::empty()
    } else {
        flat(s.drop_last(), f) + f(s.last())
    }
}

/// One element more puts `f` of it at the end.
pub proof fn flat_step<A, B>(s: Seq<A>, f: spec_fn(A) -> Seq<B>, i: int)
    requires
        0 <= i < s.len(),
    ensures
        flat(s.take(i + 1), f) == flat(s.take(i), f) + f(s[i]),
{
    assert(s.take(i + 1).drop_last() =~= s.take(i));
}

/// What `f` makes of an element is part of the whole.
pub proof fn flat_holds<A, B>(s: Seq<A>, f: spec_fn(A) -> Seq<B>, i: int, k: int)
    requires
        0 <= i < s.len(),
        0 <= k < f(s[i]).len(),
    ensures
        flat(s, f).contains(f(s[i])[k]),
    decreases s.len(),
{
    let before = flat(s.drop_last(), f);
    if i == s.len() - 1 {
        assert(flat(s, f)[before.len() + k] == f(s[i])[k]);
    } else {
        assert(s.drop_last()[i] == s[i]);
        flat_holds(s.drop_last(), f, i, k);
        let j = choose|j: int| 0 <= j < before.len() && before[j] == f(s[i])[k];
        assert(flat(s, f)[j] == f(s[i])[k]);
    }
}

/// Every part of the whole is what `f` made of some element.
pub proof fn flat_origin<A, B>(s: Seq<A>, f: spec_fn(A) -> Seq<B>, j: int) -> (origin: (int, int))
    requires
        0 <= j < flat(s, f).len(),
    ensures
        0 <= origin.0 < s.len(),
        0 <= origin.1 < f(s[origin.0]).len(),
        flat(s, f)[j] == f(s[origin.0])[origin.1],
    decreases s.len(),
{
    let before = flat(s.drop_last(), f);
    if j < before.len() {
        let origin = flat_origin(s.drop_last(), f, j);
        assert(s.drop_last()[origin.0] == s[origin.0]);
        origin
    } else {
        (s.len() - 1, j - before.len())
    }
}

/// Where `f` gives one part of some elements and none of the others, the whole is what those
/// elements give, in order.
pub proof fn flat_of_some<A, B>(
    s: Seq<A>,
    f: spec_fn(A) -> Seq<B>,
    has: spec_fn(A) -> bool,
    one: spec_fn(A) -> B,
)
    requires
        forall|a: A|
            #[trigger] f(a) == (if has(a) {
                seq![one(a)]
            } else {
                Seq::empty()
            }),
    ensures
        flat(s, f) == s.filter(has).map_values(one),
    decreases s.len(),
{
    reveal(Seq::filter);
    if s.len() > 0 {
        flat_of_some(s.drop_last(), f, has, one);
        assert(f(s.last()) == (if has(s.last()) {
            seq![one(s.last())]
        } else {
            Seq::empty()
        }));
    }
    assert(flat(s, f) =~= s.filter(has).map_values(one));
}

/// The digit character of `d`.
pub open spec fn digit(d: int) -> char {
    (48 + d) as char
}

/// The decimal digits of a natural number.
pub open spec fn decimal_digits(n: nat) -> Seq<char>
    decreases n,
{
    if n < 10 {
        seq![digit(n as int)]
    } else {
        decimal_digits(n / 10).push(digit((n % 10) as int))
    }
}

/// The decimal text of an integer.
pub open spec fn decimal(n: int) -> Seq<char> {
    if n < 0 {
        seq!['-'] + decimal_digits((-n) as nat)
    } else {
        decimal_digits(n as nat)
    }
}

/// Appends the decimal digits of `n`.
fn push_digits(text: &mut String, n: u64)
    ensures
        final(text)@ == old(text)@ + decimal_digits(n as nat),
    decreases n,
{
    if n >= 10 {
        push_digits(text, n / 10);
    }
    let d: u8 = (n % 10) as u8;
    let c: char = (48 + d) as char;
    text.push(c);
}

/// The decimal text of an unsigned number.
pub fn unsigned_text(n: u64) -> (text: String)
    ensures
        text@ == decimal(n as int),
{
    let mut text = String::new();
    push_digits(&mut text, n);
    text
}

/// The decimal text of a signed number.
pub fn signed_text(n: i64) -> (text: String)
    ensures
        text@ == decimal(n as int),
{
    let mut text = String::new();
    if n < 0 {
        text.push('-');
        let magnitude: u64 = if n == i64::MIN {
            0x8000_0000_0000_0000
        } else {
            (-n) as u64
        };
        push_digits(&mut text, magnitude);
    } else {
        push_digits(&mut text, n as u64);
    }
    text
}

/// A label value's character as it is written between quotes.
pub open spec fn escaped_char(c: char) -> Seq<char> {
    if c == '\\' {
        seq!['\\', '\\']
    } else if c == '"' {
        seq!['\\', '"']
    } else if c == '\n' {
        seq!['\\', 'n']
    } else {
        seq![c]
    }
}

/// A text as it is written between quotes.
pub open spec fn escaped(text: Seq<char>) -> Seq<char> {
    flat(text, |c: char| escaped_char(c))
}

/// Escapes backslashes, quotes and line breaks.
pub fn escape_label_value(value: &str) -> (out: String)
    ensures
        out@ == escaped(value@),
{
    let chars = chars_of(value);
    let ghost f = |c: char| escaped_char(c);
    let mut out = String::new();
    let mut i: usize = 0;
    assert(chars@.take(0) =~= Seq::<char>::empty());
    while i < chars.len()
        invariant
            i <= chars.len(),
            f == (|c: char| escaped_char(c)),
            out@ == flat(chars@.take(i as int), f),
        decreases chars.len() - i,
    {
        proof {
            flat_step(chars@, f, i as int);
        }
        let c = chars[i];
        if c == '\\' {
            out.push('\\');
            out.push('\\');
        } else if c == '"' {
            out.push('\\');
            out.push('"');
        } else if c == '\n' {
            out.push('\\');
            out.push('n');
        } else {
            out.push(c);
        }
        assert(out@ =~= flat(chars@.take(i as int), f) + f(c));
        i += 1;
    }
    assert(chars@.take(i as int) =~= chars@);
    out
}

/// Whether `a` comes before `b` in dictionary order by code points.
pub open spec fn text_before(a: Seq<char>, b: Seq<char>) -> bool
    decreases a.len(),
{
    if b.len() == 0 {
        false
    } else if a.len() == 0 {
        true
    } else if a[0] != b[0] {
        a[0] < b[0]
    } else {
        text_before(a.drop_first(), b.drop_first())
    }
}

/// Whether one string comes before another.
pub fn comes_before(a: &str, b: &str) -> (before: bool)
    ensures
        before == text_before(a@, b@),
{
    let x = chars_of(a);
    let y = chars_of(b);
    let mut i: usize = 0;
    assert(x@.skip(0) =~= x@);
    assert(y@.skip(0) =~= y@);
    loop
        invariant
            x@ == a@,
            y@ == b@,
            i <= x.len(),
            i <= y.len(),
            text_before(a@, b@) == text_before(x@.skip(i as int), y@.skip(i as int)),
        decreases x.len() - i,
    {
        if i == y.len() {
            return false;
        }
        if i == x.len() {
            return true;
        }
        if x[i] != y[i] {
            return x[i] < y[i];
        }
        assert(x@.skip(i as int).drop_first() =~= x@.skip(i + 1));
        assert(y@.skip(i as int).drop_first() =~= y@.skip(i + 1));
        i += 1;
    }
}

/// Dictionary order: nothing comes before itself.
pub proof fn before_irreflexive(a: Seq<char>)
    ensures
        !text_before(a, a),
    decreases a.len(),
{
    if a.len() > 0 {
        before_irreflexive(a.drop_first());
    }
}

/// Dictionary order goes by the first character in which two texts differ; a text comes before
/// every longer one that it starts.
pub proof fn first_difference_decides(
    start: Seq<char>,
    x: char,
    y: char,
    a: Seq<char>,
    b: Seq<char>,
)
    ensures
        x < y ==> text_before(start + (seq![x] + a), start + (seq![y] + b)),
        x < y ==> !text_before(start + (seq![y] + b), start + (seq![x] + a)),
        text_before(start, start + (seq![x] + a)),
        !text_before(start + (seq![x] + a), start),
    decreases start.len(),
{
    if start.len() > 0 {
        let rest = start.drop_first();
        first_difference_decides(rest, x, y, a, b);
        assert((start + (seq![x] + a)).drop_first() =~= rest + (seq![x] + a));
        assert((start + (seq![y] + b)).drop_first() =~= rest + (seq![y] + b));
    }
}

/// Dictionary order is transitive.
pub proof fn before_transitive(a: Seq<char>, b: Seq<char>, c: Seq<char>)
    requires
        text_before(a, b),
        text_before(b, c),
    ensures
        text_before(a, c),
    decreases a.len(),
{
    if a.len() > 0 && b.len() > 0 && c.len() > 0 && a[0] == b[0] && b[0] == c[0] {
        before_transitive(a.drop_first(), b.drop_first(), c.drop_first());
    }
}

/// Of two different texts one comes before the other.
pub proof fn before_total(a: Seq<char>, b: Seq<char>)
    ensures
        a == b || text_before(a, b) || text_before(b, a),
    decreases a.len(),
{
    if a.len() > 0 && b.len() > 0 {
        if a[0] == b[0] {
            before_total(a.drop_first(), b.drop_first());
            if a.drop_first() == b.drop_first() {
                assert(a =~= seq![a[0]] + a.drop_first());
                assert(b =~= seq![b[0]] + b.drop_first());
            }
        }
    } else if a.len() == 0 && b.len() == 0 {
        assert(a =~= b);
    }
}

/// An ordered list with `x` put where it belongs.
pub open spec fn insert_name(names: Seq<Seq<char>>, x: Seq<char>) -> Seq<Seq<char>>
    decreases names.len(),
{
    if names.len() == 0 || !text_before(x, names.last()) {
        names.push(x)
    } else {
        insert_name(names.drop_last(), x).push(names.last())
    }
}

/// The names in dictionary order.
pub open spec fn sorted_names(names: Seq<Seq<char>>) -> Seq<Seq<char>>
    decreases names.len(),
{
    if names.len() == 0 {
        Seq::empty()
    } else {
        insert_name(sorted_names(names.drop_last()), names.last())
    }
}

/// Whether no name of a list comes before an earlier one.
pub open spec fn in_order(names: Seq<Seq<char>>) -> bool {
    forall|i: int, j: int|
        0 <= i < j < names.len() ==> !text_before(#[trigger] names[j], #[trigger] names[i])
}

/// Putting a name where it belongs keeps a list ordered and adds nothing else.
pub proof fn insert_name_keeps_order(names: Seq<Seq<char>>, x: Seq<char>)
    requires
        in_order(names),
    ensures
        in_order(insert_name(names, x)),
        insert_name(names, x).to_multiset() == names.to_multiset().insert(x),
    decreases names.len(),
{
    broadcast use vstd::seq_lib::group_to_multiset_ensures;

    let out = insert_name(names, x);
    if names.len() == 0 || !text_before(x, names.last()) {
        assert forall|i: int, j: int| 0 <= i < j < out.len() implies !text_before(
            #[trigger] out[j],
            #[trigger] out[i],
        ) by {
            if j == names.len() && text_before(x, names[i]) {
                if i < names.len() - 1 {
                    before_total(names[i], names.last());
                    if text_before(names[i], names.last()) {
                        before_transitive(x, names[i], names.last());
                    } else {
                        assert(!text_before(names[names.len() - 1], names[i]));
                    }
                }
            }
        }
    } else {
        let last = names.last();
        let shorter = names.drop_last();
        let inner = insert_name(shorter, x);
        insert_name_keeps_order(shorter, x);
        assert forall|i: int, j: int| 0 <= i < j < out.len() implies !text_before(
            #[trigger] out[j],
            #[trigger] out[i],
        ) by {
            if j == inner.len() && text_before(last, inner[i]) {
                assert(inner.to_multiset().count(inner[i]) > 0) by {
                    inner.to_multiset_ensures();
                    assert(inner.contains(inner[i]));
                }
                if inner[i] == x {
                    before_transitive(x, last, x);
                    before_irreflexive(x);
                } else {
                    assert(shorter.to_multiset().count(inner[i]) > 0);
                    shorter.to_multiset_ensures();
                    assert(shorter.contains(inner[i]));
                    let k = choose|k: int| 0 <= k < shorter.len() && shorter[k] == inner[i];
                    assert(!text_before(names[names.len() - 1], names[k]));
                }
            }
        }
        assert(names =~= shorter.push(last));
        assert(out.to_multiset() =~= names.to_multiset().insert(x));
    }
}

/// The names in dictionary order are the same names, in order.
pub proof fn sorted_names_is_sorted(names: Seq<Seq<char>>)
    ensures
        in_order(sorted_names(names)),
        sorted_names(names).to_multiset() == names.to_multiset(),
    decreases names.len(),
{
    broadcast use vstd::seq_lib::group_to_multiset_ensures;

    if names.len() > 0 {
        let shorter = names.drop_last();
        sorted_names_is_sorted(shorter);
        insert_name_keeps_order(sorted_names(shorter), names.last());
        assert(names =~= shorter.push(names.last()));
    } else {
        assert(names =~= Seq::<Seq<char>>::empty());
    }
}

/// Where in a list a name is put.
proof fn insert_name_at(names: Seq<Seq<char>>, x: Seq<char>, p: int)
    requires
        0 <= p <= names.len(),
        forall|k: int| p <= k < names.len() ==> text_before(x, #[trigger] names[k]),
        p > 0 ==> !text_before(x, names[p - 1]),
    ensures
        insert_name(names, x) == names.insert(p, x),
    decreases names.len(),
{
    if p == names.len() {
        assert(names.insert(p, x) =~= names.push(x));
    } else {
        assert(text_before(x, names[names.len() - 1]));
        insert_name_at(names.drop_last(), x, p);
        assert(names.drop_last().insert(p, x).push(names.last()) =~= names.insert(p, x));
    }
}

/// Puts names into dictionary order.
pub fn sort_names(names: Vec<String>) -> (sorted: Vec<String>)
    ensures
        views(sorted@) == sorted_names(views(names@)),
{
    let ghost all = views(names@);
    let mut sorted: Vec<String> = Vec::new();
    let mut i: usize = 0;
    assert(all.take(0) =~= Seq::<Seq<char>>::empty());
    assert(views(sorted@) =~= Seq::<Seq<char>>::empty());
    while i < names.len()
        invariant
            all == views(names@),
            i <= names.len(),
            views(sorted@) == sorted_names(all.take(i as int)),
        decreases names.len() - i,
    {
        let name = names[i].clone();
        let ghost before = views(sorted@);
        let ghost x = name@;
        let mut p: usize = sorted.len();
        while p > 0 && comes_before(name.as_str(), sorted[p - 1].as_str())
            invariant
                p <= sorted.len(),
                x == name@,
                before == views(sorted@),
                forall|k: int| p <= k < before.len() ==> text_before(x, #[trigger] before[k]),
            ensures
                p > 0 ==> !text_before(x, before[p - 1]),
            decreases p,
        {
            p -= 1;
        }
        proof {
            insert_name_at(before, x, p as int);
            assert(all.take(i + 1).drop_last() =~= all.take(i as int));
        }
        sorted.insert(p, name);
        assert(views(sorted@) =~= before.insert(p as int, x));
        i += 1;
    }
    assert(all.take(i as int) =~= all);
    sorted
}

/// Whether `needle` occurs in `text` from position `i` on.
pub open spec fn occurs_at(text: Seq<char>, needle: Seq<char>, i: int) -> bool {
    &&& 0 <= i
    &&& i + needle.len() <= text.len()
    &&& text.subrange(i, i + needle.len()) == needle
}

/// Whether `needle` occurs somewhere in `text`.
pub open spec fn occurs_in(text: Seq<char>, needle: Seq<char>) -> bool {
    exists|i: int| #[trigger] occurs_at(text, needle, i)
}

/// A text occurs in another exactly where the other is made of it, of something in front of it
/// and of something behind it.
pub proof fn occurrences_split_the_text(text: Seq<char>, needle: Seq<char>)
    ensures
        forall|before: Seq<char>, after: Seq<char>|
            text == #[trigger] (before + needle + after) ==> occurs_in(text, needle),
        occurs_in(text, needle) ==> exists|before: Seq<char>, after: Seq<char>|
            text == #[trigger] (before + needle + after),
{
    assert forall|before: Seq<char>, after: Seq<char>|
        text == #[trigger] (before + needle + after) implies occurs_in(text, needle) by {
        let at = before.len() as int;
        assert(text.subrange(at, at + needle.len()) =~= needle);
        assert(occurs_at(text, needle, at));
    }
    if occurs_in(text, needle) {
        let at = choose|at: int| #[trigger] occurs_at(text, needle, at);
        let before = text.take(at);
        let after = text.skip(at + needle.len());
        assert(text =~= before + text.subrange(at, at + needle.len()) + after);
        assert(text == before + needle + after);
    }
}

/// Whether `needle` occurs somewhere in `text`.
pub fn contains_text(text: &str, needle: &str) -> (found: bool)
    ensures
        found == occurs_in(text@, needle@),
{
    let x = chars_of(text);
    let y = chars_of(needle);
    let mut i: usize = 0;
    while x.len() - i >= y.len()
        invariant
            x@ == text@,
            y@ == needle@,
            i <= x.len(),
            forall|k: int| 0 <= k < i ==> !#[trigger] occurs_at(text@, needle@, k),
        decreases x.len() - i,
    {
        let mut j: usize = 0;
        while j < y.len() && x[i + j] == y[j]
            invariant
                i + y.len() <= x.len(),
                j <= y.len(),
                forall|k: int| 0 <= k < j ==> x@[i + k] == y@[k],
            ensures
                j < y.len() ==> x@[i + j] != y@[j as int],
            decreases y.len() - j,
        {
            j += 1;
        }
        if j == y.len() {
            assert(text@.subrange(i as int, i + y.len()) =~= needle@);
            assert(occurs_at(text@, needle@, i as int));
            return true;
        }
        assert(!occurs_at(text@, needle@, i as int)) by {
            assert(x@.subrange(i as int, i + y.len())[j as int] == x@[i + j]);
        }
        i += 1;
    }
    false
}

} // verus!
