//! Text as the daemon prints, sorts and reads it.
use vstd::prelude::*;
use vstd::string::*;

verus! {

/// The digit `d` of a numeral in a base up to sixteen.
pub open spec fn digit(d: int) -> char {
    seq!['0', '1', '2', '3', '4', '5', '6', '7', '8', '9', 'a', 'b', 'c', 'd', 'e', 'f'][d]
}

/// The decimal numeral of `n`.
pub open spec fn decimal(n: nat) -> Seq<char>
    decreases n,
{
    if n < 10 {
        seq![digit(n as int)]
    } else {
        decimal(n / 10).push(digit((n % 10) as int))
    }
}

/// The decimal numeral of `n`, with its sign where it is negative.
pub open spec fn signed_decimal(n: int) -> Seq<char> {
    if n < 0 {
        "-"@ + decimal((-n) as nat)
    } else {
        decimal(n as nat)
    }
}

/// The value of a decimal digit.
pub open spec fn digit_value(c: char) -> int {
    c as u32 as int - '0' as u32 as int
}

/// Whether `c` is a decimal digit.
pub open spec fn is_digit(c: char) -> bool {
    '0' as u32 <= c as u32 <= '9' as u32
}

/// The number that a string of decimal digits stands for.
pub open spec fn decimal_value(s: Seq<char>) -> int
    decreases s.len(),
{
    if s.len() == 0 {
        0
    } else {
        decimal_value(s.drop_last()) * 10 + digit_value(s.last())
    }
}

/// A numeral is read back as its number, and is made of digits.
pub proof fn decimal_reads_back(n: nat)
    ensures
        decimal_value(decimal(n)) == n,
        decimal(n).len() > 0,
        forall|i: int| 0 <= i < decimal(n).len() ==> is_digit(#[trigger] decimal(n)[i]),
    decreases n,
{
    if n < 10 {
        assert(decimal(n).drop_last() =~= Seq::<char>::empty());
        assert(decimal_value(decimal(n)) == decimal_value(Seq::empty()) * 10 + digit_value(
            digit(n as int),
        ));
    } else {
        decimal_reads_back(n / 10);
        assert(decimal(n).drop_last() =~= decimal(n / 10));
        let d = digit((n % 10) as int);
        assert(digit_value(d) == n % 10);
    }
}

/// A numeral below a thousand has at most three digits.
pub proof fn decimal_is_short(n: nat)
    requires
        n < 1000,
    ensures
        decimal(n).len() <= 3,
{
    reveal_with_fuel(decimal, 4);
}

fn digit_text(d: u64) -> (r: &'static str)
    requires
        d < 16,
    ensures
        r@ == seq![digit(d as int)],
{
    proof {
        reveal_strlit("0");
        reveal_strlit("1");
        reveal_strlit("2");
        reveal_strlit("3");
        reveal_strlit("4");
        reveal_strlit("5");
        reveal_strlit("6");
        reveal_strlit("7");
        reveal_strlit("8");
        reveal_strlit("9");
        reveal_strlit("a");
        reveal_strlit("b");
        reveal_strlit("c");
        reveal_strlit("d");
        reveal_strlit("e");
        reveal_strlit("f");
    }
    let r: &'static str = match d {
        0 => "0",
        1 => "1",
        2 => "2",
        3 => "3",
        4 => "4",
        5 => "5",
        6 => "6",
        7 => "7",
        8 => "8",
        9 => "9",
        10 => "a",
        11 => "b",
        12 => "c",
        13 => "d",
        14 => "e",
        _ => "f",
    };
    assert(r@ =~= seq![digit(d as int)]);
    r
}

/// The decimal numeral of `n`.
pub fn decimal_text(n: u64) -> (r: String)
    ensures
        r@ == decimal(n as nat),
    decreases n,
{
    if n < 10 {
        String::from_str(digit_text(n))
    } else {
        let mut r = decimal_text(n / 10);
        r.append(digit_text(n % 10));
        assert(r@ =~= decimal(n as nat));
        r
    }
}

/// The decimal numeral of `n`, with its sign where it is negative.
pub fn signed_decimal_text(n: i64) -> (r: String)
    ensures
        r@ == signed_decimal(n as int),
{
    if n < 0 {
        let magnitude: u64 = (-(n + 1)) as u64 + 1;
        let mut r = String::from_str("-");
        r.append(decimal_text(magnitude).as_str());
        r
    } else {
        decimal_text(n as u64)
    }
}

/// The two lower-case hexadecimal digits of a byte.
pub open spec fn hex_byte(b: u8) -> Seq<char> {
    seq![digit(b as int / 16), digit(b as int % 16)]
}

/// The two lower-case hexadecimal digits of a byte.
pub fn hex_byte_text(b: u8) -> (r: String)
    ensures
        r@ == hex_byte(b),
{
    let mut r = String::from_str(digit_text((b / 16) as u64));
    r.append(digit_text((b % 16) as u64));
    assert(r@ =~= hex_byte(b));
    r
}

/// The octal numeral of `n`.
pub open spec fn octal(n: nat) -> Seq<char>
    decreases n,
{
    if n < 8 {
        seq![digit(n as int)]
    } else {
        octal(n / 8).push(digit((n % 8) as int))
    }
}

/// The octal numeral of `n`.
pub fn octal_text(n: u64) -> (r: String)
    ensures
        r@ == octal(n as nat),
    decreases n,
{
    if n < 8 {
        String::from_str(digit_text(n))
    } else {
        let mut r = octal_text(n / 8);
        r.append(digit_text(n % 8));
        assert(r@ =~= octal(n as nat));
        r
    }
}

/// The sixteen digits stand in their order, those above nine from `a` on.
pub proof fn digits_stand_in_order(d: int)
    requires
        0 <= d < 16,
    ensures
        d < 10 ==> digit(d) as u32 == '0' as u32 + d,
        d >= 10 ==> digit(d) as u32 == 'a' as u32 + (d - 10),
{
}

/// The number that octal digits stand for.
pub open spec fn octal_value(s: Seq<char>) -> int
    decreases s.len(),
{
    if s.len() == 0 {
        0
    } else {
        octal_value(s.drop_last()) * 8 + digit_value(s.last())
    }
}

/// An octal numeral is read back as its number, is made of the digits up to seven, and begins with
/// a zero only where it is that.
pub proof fn octal_reads_back(n: nat)
    ensures
        octal_value(octal(n)) == n,
        octal(n).len() > 0,
        n > 0 ==> octal(n)[0] != '0',
        forall|i: int| 0 <= i < octal(n).len() ==> '0' <= #[trigger] octal(n)[i] <= '7',
    decreases n,
{
    if n < 8 {
        assert(octal(n).drop_last() =~= Seq::empty());
        assert(octal_value(octal(n).drop_last()) == 0);
    } else {
        octal_reads_back(n / 8);
        assert(octal(n).drop_last() =~= octal(n / 8));
        assert(octal(n).last() == digit((n % 8) as int));
        assert(octal(n)[0] == octal(n / 8)[0]);
        assert forall|i: int| 0 <= i < octal(n).len() implies '0' <= #[trigger] octal(n)[i]
            <= '7' by {
            if i < octal(n / 8).len() {
                assert(octal(n)[i] == octal(n / 8)[i]);
            }
        }
    }
}

/// A negative number is printed as a minus sign and the numeral of its distance from zero, any other
/// as its numeral.
pub proof fn signs_are_printed(n: int)
    ensures
        n < 0 ==> signed_decimal(n)[0] == '-' && decimal_value(signed_decimal(n).skip(1)) == -n,
        n >= 0 ==> decimal_value(signed_decimal(n)) == n && is_digit(signed_decimal(n)[0]),
{
    reveal_strlit("-");
    if n < 0 {
        decimal_reads_back((-n) as nat);
        assert(signed_decimal(n).skip(1) =~= decimal((-n) as nat));
    } else {
        decimal_reads_back(n as nat);
    }
}

/// The quoted and escaped form in which Rust's `{:?}` prints a string.
pub uninterp spec fn debug_form(s: Seq<char>) -> Seq<char>;

/// `<str as Debug>::fmt`, reached through `format!("{:?}")`: the quoted, escaped form of `s`, which
/// depends on `s` alone.
#[verifier::external_body]
pub(crate) fn debug_text(s: &str) -> (r: String)
    ensures
        r@ == debug_form(s@),
{
    format!("{:?}", s)
}

/// The texts of a list of strings.
pub open spec fn texts(v: Seq<String>) -> Seq<Seq<char>> {
    v.map_values(|s: String| s@)
}

/// The same strings once more.
pub fn copy_texts(v: &Vec<String>) -> (r: Vec<String>)
    ensures
        texts(r@) == texts(v@),
{
    let mut r: Vec<String> = Vec::new();
    let mut i: usize = 0;
    while i < v.len()
        invariant
            i <= v@.len(),
            r@.len() == i,
            forall|j: int| 0 <= j < i ==> (#[trigger] r@[j])@ == v@[j]@,
        decreases v@.len() - i,
    {
        r.push(v[i].clone());
        i += 1;
    }
    assert(texts(r@) =~= texts(v@));
    r
}

/// The texts in a row, with `separator` between them.
pub open spec fn joined(parts: Seq<Seq<char>>, separator: Seq<char>) -> Seq<char>
    decreases parts.len(),
{
    if parts.len() == 0 {
        Seq::empty()
    } else if parts.len() == 1 {
        parts[0]
    } else {
        joined(parts.drop_last(), separator) + separator + parts.last()
    }
}

/// The strings in a row, with `separator` between them.
pub fn join(parts: &Vec<String>, separator: &str) -> (r: String)
    ensures
        r@ == joined(texts(parts@), separator@),
{
    let mut r = String::new();
    let mut i: usize = 0;
    while i < parts.len()
        invariant
            i <= parts@.len(),
            r@ == joined(texts(parts@.take(i as int)), separator@),
        decreases parts@.len() - i,
    {
        let ghost so_far = texts(parts@.take(i as int));
        let ghost grown = texts(parts@.take(i + 1));
        assert(grown =~= so_far.push(parts@[i as int]@));
        assert(grown.drop_last() =~= so_far);
        if i > 0 {
            r.append(separator);
        } else {
            assert(so_far =~= Seq::empty());
        }
        r.append(parts[i].as_str());
        assert(r@ =~= joined(grown, separator@));
        i += 1;
    }
    assert(parts@.take(parts@.len() as int) =~= parts@);
    r
}

/// Joining puts the separator between any two texts and nowhere else: one text stays as it is, none
/// gives nothing, and two rows are joined by the separator between them.
pub proof fn a_separator_stands_between_texts(
    a: Seq<Seq<char>>,
    b: Seq<Seq<char>>,
    one: Seq<char>,
    separator: Seq<char>,
)
    requires
        a.len() > 0,
        b.len() > 0,
    ensures
        joined(Seq::empty(), separator) == Seq::<char>::empty(),
        joined(seq![one], separator) == one,
        joined(a + b, separator) == joined(a, separator) + separator + joined(b, separator),
    decreases b.len(),
{
    assert((a + b).drop_last() =~= a + b.drop_last());
    assert((a + b).last() == b.last());
    if b.len() == 1 {
        assert(a + b.drop_last() =~= a);
        assert(joined(b, separator) == b.last());
    } else {
        a_separator_stands_between_texts(a, b.drop_last(), one, separator);
        assert(joined(a + b, separator) =~= joined(a, separator) + separator + joined(
            b,
            separator,
        ));
    }
}

/// The numerals of a list of numbers.
pub open spec fn numerals(v: Seq<u32>) -> Seq<Seq<char>> {
    v.map_values(|n: u32| decimal(n as nat))
}

/// A list of numbers as it is printed.
pub open spec fn list_form(v: Seq<u32>) -> Seq<char> {
    "["@ + joined(numerals(v), ", "@) + "]"@
}

/// A list is printed in brackets, its numbers with a comma and a space between them.
pub proof fn lists_are_printed_in_brackets(a: Seq<u32>, b: Seq<u32>, n: u32)
    requires
        a.len() > 0,
        b.len() > 0,
    ensures
        list_form(Seq::empty()) == "[]"@,
        list_form(seq![n]) == "["@ + decimal(n as nat) + "]"@,
        list_form(a + b) == list_form(a).drop_last() + ", "@ + list_form(b).drop_first(),
{
    reveal_strlit("[");
    reveal_strlit("]");
    reveal_strlit("[]");
    let x = numerals(a);
    let y = numerals(b);
    let one = numerals(seq![n]);
    assert(one =~= seq![decimal(n as nat)]);
    assert(numerals(Seq::<u32>::empty()) =~= Seq::empty());
    a_separator_stands_between_texts(x, y, decimal(n as nat), ", "@);
    assert(numerals(a + b) =~= x + y);
    assert(list_form(Seq::empty()) =~= "[]"@);
    assert(list_form(a).drop_last() =~= "["@ + joined(x, ", "@));
    assert(list_form(b).drop_first() =~= joined(y, ", "@) + "]"@);
    assert(list_form(a + b) =~= list_form(a).drop_last() + ", "@ + list_form(b).drop_first());
}

/// A list of numbers as it is printed.
pub fn list_text(v: &Vec<u32>) -> (r: String)
    ensures
        r@ == list_form(v@),
{
    let mut parts: Vec<String> = Vec::new();
    let mut i: usize = 0;
    while i < v.len()
        invariant
            i <= v@.len(),
            parts@.len() == i,
            forall|j: int| 0 <= j < i ==> (#[trigger] parts@[j])@ == decimal(v@[j] as nat),
        decreases v@.len() - i,
    {
        parts.push(decimal_text(v[i] as u64));
        i += 1;
    }
    assert(texts(parts@) =~= numerals(v@));
    let mut r = String::from_str("[");
    r.append(join(&parts, ", ").as_str());
    r.append("]");
    r
}

/// Whether two strings hold the same text.
pub fn same_text(a: &str, b: &str) -> (r: bool)
    ensures
        r == (a@ == b@),
{
    a.to_owned() == b.to_owned()
}

/// `a` stands before `b` in the order of their characters' code points.
pub open spec fn text_before(a: Seq<char>, b: Seq<char>) -> bool
    decreases a.len(),
{
    if b.len() == 0 {
        false
    } else if a.len() == 0 {
        true
    } else if a[0] != b[0] {
        a[0] < b[0]
    } else {
        text_before(a.drop_first(), b.drop_first())
    }
}

/// Of two texts exactly one holds: they are equal, the one stands first, or the other does.
pub proof fn text_order_is_total(a: Seq<char>, b: Seq<char>)
    ensures
        text_before(a, b) ==> a != b && !text_before(b, a),
        text_before(a, b) || a == b || text_before(b, a),
    decreases a.len(),
{
    if a.len() > 0 && b.len() > 0 && a[0] == b[0] {
        text_order_is_total(a.drop_first(), b.drop_first());
        if a.drop_first() == b.drop_first() {
            assert(a =~= seq![a[0]] + a.drop_first());
            assert(b =~= seq![b[0]] + b.drop_first());
            assert(a == b);
        }
    } else if a.len() == 0 && b.len() == 0 {
        assert(a =~= b);
    }
}

/// The order of texts is transitive.
pub proof fn text_order_is_transitive(a: Seq<char>, b: Seq<char>, c: Seq<char>)
    requires
        text_before(a, b),
        text_before(b, c),
    ensures
        text_before(a, c),
    decreases a.len(),
{
    if a.len() > 0 && b.len() > 0 && c.len() > 0 && a[0] == b[0] && b[0] == c[0] {
        text_order_is_transitive(a.drop_first(), b.drop_first(), c.drop_first());
    }
}

/// Whether `a` stands before `b` in the order of their characters' code points.
pub fn stands_before(a: &str, b: &str) -> (r: bool)
    ensures
        r == text_before(a@, b@),
{
    let n: usize = a.unicode_len();
    let m: usize = b.unicode_len();
    let mut i: usize = 0;
    assert(a@.skip(0) =~= a@);
    assert(b@.skip(0) =~= b@);
    while i < n && i < m
        invariant
            n == a@.len(),
            m == b@.len(),
            i <= n,
            i <= m,
            text_before(a@, b@) == text_before(a@.skip(i as int), b@.skip(i as int)),
        decreases n - i,
    {
        let x = a.get_char(i);
        let y = b.get_char(i);
        if x != y {
            return x < y;
        }
        assert(a@.skip(i as int).drop_first() =~= a@.skip(i + 1));
        assert(b@.skip(i as int).drop_first() =~= b@.skip(i + 1));
        i += 1;
    }
    i < m
}

/// Of two texts the one stands first that has the smaller character where they first differ, or that
/// ends where the other goes on.
pub proof fn the_first_difference_decides(a: Seq<char>, b: Seq<char>, i: int)
    requires
        0 <= i <= a.len(),
        i < b.len(),
        forall|k: int| 0 <= k < i ==> #[trigger] a[k] == b[k],
        i == a.len() || a[i] < b[i],
    ensures
        text_before(a, b),
        !text_before(b, a),
    decreases i,
{
    if i > 0 {
        let x = a.drop_first();
        let y = b.drop_first();
        assert(a[0] == b[0]);
        assert forall|k: int| 0 <= k < i - 1 implies #[trigger] x[k] == y[k] by {
            assert(a[k + 1] == b[k + 1]);
        }
        the_first_difference_decides(x, y, i - 1);
    }
}

/// The texts stand in strictly ascending order.
pub open spec fn ascending_texts(s: Seq<Seq<char>>) -> bool {
    forall|i: int, j: int|
        0 <= i < j < s.len() ==> text_before(#[trigger] s[i], #[trigger] s[j])
}

/// In an ascending list no text stands twice, and of any two the one that stands first in the order
/// stands first.
pub proof fn ascending_texts_stand_once(s: Seq<Seq<char>>, i: int, j: int)
    requires
        ascending_texts(s),
        0 <= i < s.len(),
        0 <= j < s.len(),
    ensures
        i < j <==> text_before(s[i], s[j]),
        s[i] == s[j] <==> i == j,
{
    text_order_is_total(s[i], s[j]);
    if i < j {
        assert(text_before(s[i], s[j]));
    } else if j < i {
        assert(text_before(s[j], s[i]));
    }
}

/// Puts `item` where it belongs in an ascending list, unless its text is there already.
fn insert_text(list: &mut Vec<String>, item: &String)
    requires
        ascending_texts(texts(old(list)@)),
    ensures
        ascending_texts(texts(final(list)@)),
        texts(final(list)@).to_set() == texts(old(list)@).to_set().insert(item@),
{
    let ghost before = texts(list@);
    let mut i: usize = 0;
    while i < list.len() && stands_before(list[i].as_str(), item.as_str())
        invariant
            i <= list@.len(),
            before == texts(list@),
            forall|j: int| 0 <= j < i ==> text_before(#[trigger] before[j], item@),
        decreases list@.len() - i,
    {
        i += 1;
    }
    if i < list.len() && list[i].as_str().to_owned() == *item {
        assert(before[i as int] == item@);
        assert(before.to_set().contains(before[i as int]));
        assert(before.to_set() =~= before.to_set().insert(item@));
        return;
    }
    list.insert(i, item.clone());
    proof {
        let after = texts(list@);
        assert(after =~= before.insert(i as int, item@));
        assert forall|a: int, b: int| 0 <= a < b < after.len() implies text_before(
            #[trigger] after[a],
            #[trigger] after[b],
        ) by {
            if i < before.len() {
                text_order_is_total(before[i as int], item@);
                if b > i && b - 1 > i {
                    text_order_is_transitive(item@, before[i as int], before[b - 1]);
                }
            }
            if a < i && b > i {
                assert(after[a] == before[a] && after[b] == before[b - 1]);
            } else if a < i && b < i {
                assert(after[a] == before[a] && after[b] == before[b]);
            } else if a > i {
                assert(after[a] == before[a - 1] && after[b] == before[b - 1]);
            }
        }
        assert forall|t: Seq<char>|
            after.to_set().contains(t) == #[trigger] before.to_set().insert(item@).contains(t) by {
            if after.contains(t) {
                let x = choose|x: int| 0 <= x < after.len() && after[x] == t;
                if x < i {
                    assert(before[x] == t);
                } else if x > i {
                    assert(before[x - 1] == t);
                }
            }
            if before.contains(t) {
                let x = choose|x: int| 0 <= x < before.len() && before[x] == t;
                if x < i {
                    assert(after[x] == t);
                } else {
                    assert(after[x + 1] == t);
                }
            }
            assert(after[i as int] == item@);
        }
        assert(after.to_set() =~= before.to_set().insert(item@));
    }
}

/// The texts of `items` in ascending order, each once.
pub fn sorted_distinct(items: &Vec<String>) -> (r: Vec<String>)
    ensures
        ascending_texts(texts(r@)),
        texts(r@).to_set() == texts(items@).to_set(),
{
    let mut r: Vec<String> = Vec::new();
    let mut i: usize = 0;
    assert(texts(r@).to_set() =~= texts(items@.take(0)).to_set());
    while i < items.len()
        invariant
            i <= items@.len(),
            ascending_texts(texts(r@)),
            texts(r@).to_set() == texts(items@.take(i as int)).to_set(),
        decreases items@.len() - i,
    {
        insert_text(&mut r, &items[i]);
        proof {
            let so_far = texts(items@.take(i as int));
            let grown = texts(items@.take(i + 1));
            assert(grown =~= so_far.push(items@[i as int]@));
            assert forall|t: Seq<char>|
                grown.to_set().contains(t) == #[trigger] so_far.to_set().insert(
                    items@[i as int]@,
                ).contains(t) by {
                if so_far.contains(t) {
                    let x = choose|x: int| 0 <= x < so_far.len() && so_far[x] == t;
                    assert(grown[x] == t);
                }
                assert(grown[i as int] == items@[i as int]@);
            }
            assert(grown.to_set() =~= so_far.to_set().insert(items@[i as int]@));
        }
        i += 1;
    }
    assert(items@.take(items@.len() as int) =~= items@);
    r
}

/// Whether some string of `items` holds the text `wanted`.
pub fn holds_text(items: &Vec<String>, wanted: &String) -> (r: bool)
    ensures
        r == texts(items@).contains(wanted@),
{
    let mut i: usize = 0;
    while i < items.len()
        invariant
            i <= items@.len(),
            forall|j: int| 0 <= j < i ==> #[trigger] texts(items@)[j] != wanted@,
        decreases items@.len() - i,
    {
        if items[i] == *wanted {
            assert(texts(items@)[i as int] == wanted@);
            return true;
        }
        i += 1;
    }
    false
}

/// The characters with Unicode's White_Space property.
pub open spec fn is_white_space(c: char) -> bool {
    let u = c as u32;
    ||| 0x09 <= u <= 0x0d
    ||| u == 0x20
    ||| u == 0x85
    ||| u == 0xa0
    ||| u == 0x1680
    ||| 0x2000 <= u <= 0x200a
    ||| u == 0x2028
    ||| u == 0x2029
    ||| u == 0x202f
    ||| u == 0x205f
    ||| u == 0x3000
}

fn white_space(c: char) -> (r: bool)
    ensures
        r == is_white_space(c),
{
    let u: u32 = c as u32;
    (0x09 <= u && u <= 0x0d) || u == 0x20 || u == 0x85 || u == 0xa0 || u == 0x1680 || (0x2000 <= u
        && u <= 0x200a) || u == 0x2028 || u == 0x2029 || u == 0x202f || u == 0x205f || u == 0x3000
}

/// `s` without the white space in front.
pub open spec fn trimmed_front(s: Seq<char>) -> Seq<char>
    decreases s.len(),
{
    if s.len() > 0 && is_white_space(s[0]) {
        trimmed_front(s.drop_first())
    } else {
        s
    }
}

/// `s` without the white space behind.
pub open spec fn trimmed_back(s: Seq<char>) -> Seq<char>
    decreases s.len(),
{
    if s.len() > 0 && is_white_space(s.last()) {
        trimmed_back(s.drop_last())
    } else {
        s
    }
}

/// `s` without the white space around it.
pub open spec fn trimmed(s: Seq<char>) -> Seq<char> {
    trimmed_back(trimmed_front(s))
}

proof fn front_is_white(s: Seq<char>) -> (from: int)
    ensures
        0 <= from <= s.len(),
        trimmed_front(s) == s.skip(from),
        forall|i: int| 0 <= i < from ==> is_white_space(#[trigger] s[i]),
        from < s.len() ==> !is_white_space(s[from]),
    decreases s.len(),
{
    if s.len() > 0 && is_white_space(s[0]) {
        let rest = s.drop_first();
        let from = front_is_white(rest) + 1;
        assert(rest.skip(from - 1) =~= s.skip(from));
        assert forall|i: int| 0 <= i < from implies is_white_space(#[trigger] s[i]) by {
            if i > 0 {
                assert(rest[i - 1] == s[i]);
            }
        }
        from
    } else {
        assert(s.skip(0) =~= s);
        0
    }
}

proof fn back_is_white(s: Seq<char>) -> (to: int)
    ensures
        0 <= to <= s.len(),
        trimmed_back(s) == s.take(to),
        forall|i: int| to <= i < s.len() ==> is_white_space(#[trigger] s[i]),
        to > 0 ==> !is_white_space(s[to - 1]),
    decreases s.len(),
{
    if s.len() > 0 && is_white_space(s.last()) {
        let rest = s.drop_last();
        let to = back_is_white(rest);
        assert(rest.take(to) =~= s.take(to));
        assert forall|i: int| to <= i < s.len() implies is_white_space(#[trigger] s[i]) by {
            if i < rest.len() {
                assert(rest[i] == s[i]);
            }
        }
        to
    } else {
        assert(s.take(s.len() as int) =~= s);
        s.len() as int
    }
}

/// Trimming takes all the white space in front and behind and nothing else: what is left stands in
/// the text from `from` on, has only white space around it there, and neither begins nor ends with
/// any.
pub proof fn trimming_takes_the_white_space_around(s: Seq<char>) -> (from: int)
    ensures
        0 <= from,
        from + trimmed(s).len() <= s.len(),
        trimmed(s) == s.subrange(from, from + trimmed(s).len()),
        forall|i: int|
            0 <= i < from || from + trimmed(s).len() <= i < s.len() ==> is_white_space(
                #[trigger] s[i],
            ),
        trimmed(s).len() > 0 ==> !is_white_space(trimmed(s)[0]) && !is_white_space(
            trimmed(s).last(),
        ),
{
    let from = front_is_white(s);
    let front = s.skip(from);
    let to = back_is_white(front);
    assert(trimmed(s) =~= s.subrange(from, from + to));
    assert forall|i: int| from + to <= i < s.len() implies is_white_space(#[trigger] s[i]) by {
        assert(front[i - from] == s[i]);
    }
    from
}

/// Of the characters that a keyboard has, the space, the tab and the ends of lines and pages are
/// white, and all that print are not.
pub proof fn printed_characters_are_not_white(c: char)
    ensures
        '!' <= c <= '~' ==> !is_white_space(c),
        c == ' ' || c == '\t' || c == '\n' || c == '\r' ==> is_white_space(c),
{
}

/// `s` without the white space around it.
pub fn trim(s: &str) -> (r: String)
    ensures
        r@ == trimmed(s@),
{
    let n: usize = s.unicode_len();
    let mut from: usize = 0;
    assert(s@.skip(0) =~= s@);
    while from < n && white_space(s.get_char(from))
        invariant
            n == s@.len(),
            from <= n,
            trimmed_front(s@) == trimmed_front(s@.skip(from as int)),
        decreases n - from,
    {
        assert(s@.skip(from as int).drop_first() =~= s@.skip(from + 1));
        from += 1;
    }
    let ghost front = s@.skip(from as int);
    assert(trimmed_front(s@) == front);
    let mut to: usize = n;
    assert(front =~= s@.subrange(from as int, to as int));
    while to > from && white_space(s.get_char(to - 1))
        invariant
            n == s@.len(),
            from <= to <= n,
            trimmed_back(front) == trimmed_back(s@.subrange(from as int, to as int)),
        decreases to,
    {
        assert(s@.subrange(from as int, to as int).drop_last() =~= s@.subrange(
            from as int,
            to - 1,
        ));
        to -= 1;
    }
    s.substring_char(from, to).to_owned()
}

/// Where `c` first stands in `s`; the length of `s` where it does not.
pub open spec fn index_of(s: Seq<char>, c: char) -> int
    decreases s.len(),
{
    if s.len() == 0 || s[0] == c {
        0
    } else {
        1 + index_of(s.drop_first(), c)
    }
}

/// What [`index_of`] finds.
pub proof fn index_of_is_first(s: Seq<char>, c: char)
    ensures
        0 <= index_of(s, c) <= s.len(),
        forall|i: int| 0 <= i < index_of(s, c) ==> #[trigger] s[i] != c,
        index_of(s, c) < s.len() ==> s[index_of(s, c)] == c,
    decreases s.len(),
{
    if s.len() > 0 && s[0] != c {
        let rest = s.drop_first();
        index_of_is_first(rest, c);
        assert forall|i: int| 0 <= i < index_of(s, c) implies #[trigger] s[i] != c by {
            if i > 0 {
                assert(rest[i - 1] == s[i]);
            }
        }
    }
}

/// Where `c` first stands in `s`; the length of `s` where it does not.
pub fn find_char(s: &str, c: char) -> (r: usize)
    ensures
        r == index_of(s@, c),
        r <= s@.len(),
{
    let n: usize = s.unicode_len();
    let mut i: usize = 0;
    proof {
        index_of_is_first(s@, c);
    }
    while i < n && s.get_char(i) != c
        invariant
            n == s@.len(),
            i <= n,
            forall|j: int| 0 <= j < i ==> #[trigger] s@[j] != c,
        decreases n - i,
    {
        i += 1;
    }
    i
}

} // verus!
