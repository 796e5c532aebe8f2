//! What is written as the same text was the same: strings, integers and
//! objects of them can be told apart by their JSON texts.

use vstd::prelude::*;
use crate::json::{
    decimal, digit, digits, escaped, escaped_char, hex_digit, json_quoted, listed, member_text,
    object_text, value_text, FieldValue, MemberView,
};

verus! {

/// Texts that begin alike end alike where the wholes are the same.
pub proof fn lemma_same_front(front: Seq<char>, x: Seq<char>, y: Seq<char>)
    requires
        front + x == front + y,
    ensures
        x == y,
{
    assert((front + x).subrange(front.len() as int, (front + x).len() as int) =~= x);
    assert((front + y).subrange(front.len() as int, (front + y).len() as int) =~= y);
}

/// The escaped characters of a string begin with those of its first character.
pub proof fn lemma_escaped_front(s: Seq<char>)
    requires
        s.len() > 0,
    ensures
        escaped(s) == escaped_char(s[0]) + escaped(s.drop_first()),
    decreases s.len(),
{
    if s.len() == 1 {
        assert(s.drop_last() =~= Seq::<char>::empty());
        assert(s.drop_first() =~= Seq::<char>::empty());
        assert(escaped(s) =~= escaped_char(s[0]) + escaped(s.drop_first()));
    } else {
        let front = s.drop_last();
        lemma_escaped_front(front);
        assert(front.drop_first() =~= s.drop_first().drop_last());
        assert(s.drop_first().last() == s.last());
        assert(front[0] == s[0]);
        assert(escaped(s) =~= escaped_char(s[0]) + escaped(s.drop_first()));
    }
}

/// Whether a character is written as itself inside a JSON string.
pub open spec fn plain(c: char) -> bool {
    c != '"' && c != '\\' && (c as u32) >= 0x20
}

/// How a character is written inside a JSON string begins with the
/// character itself where it is plain, and with a backslash and a letter
/// that tells the escape where it is not.
pub proof fn lemma_escaped_char_shape(c: char)
    ensures
        escaped_char(c).len() >= 1,
        escaped_char(c)[0] != '"',
        plain(c) ==> escaped_char(c) == seq![c],
        !plain(c) ==> escaped_char(c).len() >= 2 && escaped_char(c)[0] == '\\',
        c == '"' ==> escaped_char(c) == seq!['\\', '"'],
        c == '\\' ==> escaped_char(c) == seq!['\\', '\\'],
        c == '\u{8}' ==> escaped_char(c) == seq!['\\', 'b'],
        c == '\t' ==> escaped_char(c) == seq!['\\', 't'],
        c == '\n' ==> escaped_char(c) == seq!['\\', 'n'],
        c == '\u{c}' ==> escaped_char(c) == seq!['\\', 'f'],
        c == '\r' ==> escaped_char(c) == seq!['\\', 'r'],
        !plain(c) && c != '"' && c != '\\' && c != '\u{8}' && c != '\t' && c != '\n' && c
            != '\u{c}' && c != '\r' ==> escaped_char(c) == seq!['\\', 'u', '0', '0'] + hex_digit(
            (c as u32) as int / 16,
        ) + hex_digit((c as u32) as int % 16),
{
    reveal_strlit("\\\"");
    reveal_strlit("\\\\");
    reveal_strlit("\\b");
    reveal_strlit("\\t");
    reveal_strlit("\\n");
    reveal_strlit("\\f");
    reveal_strlit("\\r");
    reveal_strlit("\\u00");
    assert("\\\""@ =~= seq!['\\', '"']);
    assert("\\\\"@ =~= seq!['\\', '\\']);
    assert("\\b"@ =~= seq!['\\', 'b']);
    assert("\\t"@ =~= seq!['\\', 't']);
    assert("\\n"@ =~= seq!['\\', 'n']);
    assert("\\f"@ =~= seq!['\\', 'f']);
    assert("\\r"@ =~= seq!['\\', 'r']);
    assert("\\u00"@ =~= seq!['\\', 'u', '0', '0']);
}

/// A hexadecimal digit is one character, and tells its value.
pub proof fn lemma_hex_digit(m: int, n: int)
    requires
        0 <= m < 16,
        0 <= n < 16,
    ensures
        hex_digit(m).len() == 1,
        hex_digit(m) == hex_digit(n) ==> m == n,
{
    reveal_strlit("0123456789abcdef");
    let all = "0123456789abcdef"@;
    assert(all.len() == 16);
    assert(hex_digit(m)[0] == all[m]);
    assert(hex_digit(n)[0] == all[n]);
    assert(all[0] == '0' && all[1] == '1' && all[2] == '2' && all[3] == '3' && all[4] == '4'
        && all[5] == '5' && all[6] == '6' && all[7] == '7' && all[8] == '8' && all[9] == '9'
        && all[10] == 'a' && all[11] == 'b' && all[12] == 'c' && all[13] == 'd' && all[14] == 'e'
        && all[15] == 'f');
}

/// Two characters that are written alike, whatever follows, are the same,
/// and the same follows them.
pub proof fn lemma_escaped_char_unique(c: char, d: char, x: Seq<char>, y: Seq<char>)
    requires
        escaped_char(c) + x == escaped_char(d) + y,
    ensures
        c == d,
        x == y,
{
    lemma_escaped_char_shape(c);
    lemma_escaped_char_shape(d);
    let a = escaped_char(c) + x;
    let b = escaped_char(d) + y;
    assert(a[0] == escaped_char(c)[0]);
    assert(b[0] == escaped_char(d)[0]);
    if plain(c) || plain(d) {
        assert(c == d);
    } else {
        assert(a[1] == escaped_char(c)[1]);
        assert(b[1] == escaped_char(d)[1]);
        if escaped_char(c)[1] == 'u' {
            let ch = (c as u32) as int / 16;
            let cl = (c as u32) as int % 16;
            let dh = (d as u32) as int / 16;
            let dl = (d as u32) as int % 16;
            assert(escaped_char(d)[1] == 'u');
            lemma_hex_digit(ch, dh);
            lemma_hex_digit(cl, dl);
            lemma_hex_digit(dh, ch);
            lemma_hex_digit(dl, cl);
            assert(escaped_char(c).len() == 6);
            assert(escaped_char(d).len() == 6);
            assert(a[4] == hex_digit(ch)[0] && a[5] == hex_digit(cl)[0]);
            assert(b[4] == hex_digit(dh)[0] && b[5] == hex_digit(dl)[0]);
            assert(hex_digit(ch) =~= hex_digit(dh));
            assert(hex_digit(cl) =~= hex_digit(dl));
            assert((c as u32) == (d as u32));
        }
        assert(c == d);
    }
    lemma_same_front(escaped_char(c), x, y);
}

/// Two strings whose escaped characters, a double quote and what follows
/// are alike are the same, and the same follows them.
pub proof fn lemma_escaped_unique(s: Seq<char>, t: Seq<char>, x: Seq<char>, y: Seq<char>)
    requires
        escaped(s) + seq!['"'] + x == escaped(t) + seq!['"'] + y,
    ensures
        s == t,
        x == y,
    decreases s.len(),
{
    let a = escaped(s) + seq!['"'] + x;
    let b = escaped(t) + seq!['"'] + y;
    if s.len() == 0 {
        assert(a[0] == '"');
        if t.len() > 0 {
            lemma_escaped_front(t);
            lemma_escaped_char_shape(t[0]);
            assert(b[0] == escaped_char(t[0])[0]);
        }
        assert(s =~= t);
        assert(a =~= seq!['"'] + x);
        assert(b =~= seq!['"'] + y);
        lemma_same_front(seq!['"'], x, y);
    } else {
        lemma_escaped_front(s);
        lemma_escaped_char_shape(s[0]);
        if t.len() == 0 {
            assert(b[0] == '"');
            assert(a[0] == escaped_char(s[0])[0]);
        }
        lemma_escaped_front(t);
        let sx = escaped(s.drop_first()) + seq!['"'] + x;
        let ty = escaped(t.drop_first()) + seq!['"'] + y;
        assert(a =~= escaped_char(s[0]) + sx);
        assert(b =~= escaped_char(t[0]) + ty);
        lemma_escaped_char_unique(s[0], t[0], sx, ty);
        lemma_escaped_unique(s.drop_first(), t.drop_first(), x, y);
        assert(s =~= seq![s[0]] + s.drop_first());
        assert(t =~= seq![t[0]] + t.drop_first());
    }
}

/// Two strings whose JSON texts, and what follows them, are alike are the
/// same, and the same follows them.
pub proof fn lemma_quoted_unique(s: Seq<char>, t: Seq<char>, x: Seq<char>, y: Seq<char>)
    requires
        json_quoted(s) + x == json_quoted(t) + y,
    ensures
        s == t,
        x == y,
{
    reveal_strlit("\"");
    assert("\""@ =~= seq!['"']);
    let sx = escaped(s) + seq!['"'] + x;
    let ty = escaped(t) + seq!['"'] + y;
    assert(json_quoted(s) + x =~= seq!['"'] + sx);
    assert(json_quoted(t) + y =~= seq!['"'] + ty);
    lemma_same_front(seq!['"'], sx, ty);
    lemma_escaped_unique(s, t, x, y);
}

/// Whether a character is a decimal digit.
pub open spec fn is_digit(c: char) -> bool {
    c == '0' || c == '1' || c == '2' || c == '3' || c == '4' || c == '5' || c == '6' || c == '7'
        || c == '8' || c == '9'
}

/// The text of a digit is one character, a digit, and tells the digit.
pub proof fn lemma_digit(d: nat, e: nat)
    requires
        d < 10,
        e < 10,
    ensures
        digit(d).len() == 1,
        is_digit(digit(d)[0]),
        digit(d) == digit(e) ==> d == e,
{
    reveal_strlit("0");
    reveal_strlit("1");
    reveal_strlit("2");
    reveal_strlit("3");
    reveal_strlit("4");
    reveal_strlit("5");
    reveal_strlit("6");
    reveal_strlit("7");
    reveal_strlit("8");
    reveal_strlit("9");
    assert("0"@.len() == 1 && "0"@[0] == '0');
    assert("1"@.len() == 1 && "1"@[0] == '1');
    assert("2"@.len() == 1 && "2"@[0] == '2');
    assert("3"@.len() == 1 && "3"@[0] == '3');
    assert("4"@.len() == 1 && "4"@[0] == '4');
    assert("5"@.len() == 1 && "5"@[0] == '5');
    assert("6"@.len() == 1 && "6"@[0] == '6');
    assert("7"@.len() == 1 && "7"@[0] == '7');
    assert("8"@.len() == 1 && "8"@[0] == '8');
    assert("9"@.len() == 1 && "9"@[0] == '9');
    if digit(d) == digit(e) {
        assert(digit(d)[0] == digit(e)[0]);
    }
}

/// The digits of a number are digits, at least one, and more than one from
/// ten on.
pub proof fn lemma_digits_shape(n: nat)
    ensures
        digits(n).len() >= 1,
        n >= 10 ==> digits(n).len() >= 2,
        forall|i: int| 0 <= i < digits(n).len() ==> is_digit(#[trigger] digits(n)[i]),
    decreases n,
{
    if n < 10 {
        lemma_digit(n, n);
    } else {
        lemma_digits_shape(n / 10);
        lemma_digit(n % 10, n % 10);
        let front = digits(n / 10);
        assert forall|i: int| 0 <= i < digits(n).len() implies is_digit(
            #[trigger] digits(n)[i],
        ) by {
            if i < front.len() {
                assert(digits(n)[i] == front[i]);
            } else {
                assert(digits(n)[i] == digit(n % 10)[0]);
            }
        }
    }
}

/// Two numbers of the same digits are the same.
pub proof fn lemma_digits_unique(a: nat, b: nat)
    requires
        digits(a) == digits(b),
    ensures
        a == b,
    decreases a,
{
    lemma_digits_shape(a);
    lemma_digits_shape(b);
    if a < 10 && b < 10 {
        lemma_digit(a, b);
    } else if a < 10 {
        lemma_digit(a, a);
    } else if b < 10 {
        lemma_digit(b, b);
    } else {
        lemma_digit(a % 10, b % 10);
        lemma_digit(b % 10, a % 10);
        let fa = digits(a / 10);
        let fb = digits(b / 10);
        assert(digits(a).drop_last() =~= fa);
        assert(digits(b).drop_last() =~= fb);
        assert(digits(a).last() == digit(a % 10)[0]);
        assert(digits(b).last() == digit(b % 10)[0]);
        assert(digit(a % 10) =~= digit(b % 10));
        lemma_digits_unique(a / 10, b / 10);
    }
}

/// Two numbers whose digits, and what follows them, are alike are the same,
/// and the same follows them, where what follows begins with no digit.
pub proof fn lemma_digits_told(a: nat, b: nat, x: Seq<char>, y: Seq<char>)
    requires
        digits(a) + x == digits(b) + y,
        x.len() > 0 && !is_digit(x[0]),
        y.len() > 0 && !is_digit(y[0]),
    ensures
        a == b,
        x == y,
{
    lemma_digits_shape(a);
    lemma_digits_shape(b);
    let da = digits(a);
    let db = digits(b);
    let whole = da + x;
    if da.len() < db.len() {
        assert(whole[da.len() as int] == x[0]);
        assert((db + y)[da.len() as int] == db[da.len() as int]);
    }
    if db.len() < da.len() {
        assert((db + y)[db.len() as int] == y[0]);
        assert(whole[db.len() as int] == da[db.len() as int]);
    }
    assert(da =~= whole.subrange(0, da.len() as int));
    assert(db =~= (db + y).subrange(0, db.len() as int));
    lemma_digits_unique(a, b);
    lemma_same_front(da, x, y);
}

/// Two integers whose decimal texts, and what follows them, are alike are
/// the same, and the same follows them, where what follows begins with no
/// digit.
pub proof fn lemma_decimal_told(i: int, j: int, x: Seq<char>, y: Seq<char>)
    requires
        decimal(i) + x == decimal(j) + y,
        x.len() > 0 && !is_digit(x[0]),
        y.len() > 0 && !is_digit(y[0]),
    ensures
        i == j,
        x == y,
{
    reveal_strlit("-");
    let minus = "-"@;
    assert(minus =~= seq!['-']);
    let a = if i < 0 {
        (-i) as nat
    } else {
        i as nat
    };
    let b = if j < 0 {
        (-j) as nat
    } else {
        j as nat
    };
    lemma_digits_shape(a);
    lemma_digits_shape(b);
    let left = decimal(i) + x;
    let right = decimal(j) + y;
    assert(left[0] == decimal(i)[0]);
    assert(right[0] == decimal(j)[0]);
    assert(is_digit(digits(a)[0]) && is_digit(digits(b)[0]));
    if i < 0 {
        assert(decimal(i)[0] == '-');
        assert(j < 0);
        assert(left =~= minus + (digits(a) + x));
        assert(right =~= minus + (digits(b) + y));
        lemma_same_front(minus, digits(a) + x, digits(b) + y);
        lemma_digits_told(a, b, x, y);
    } else {
        assert(decimal(i)[0] == digits(a)[0]);
        if j < 0 {
            assert(decimal(j)[0] == '-');
        }
        lemma_digits_told(a, b, x, y);
    }
}

/// Whether a text begins with a comma or a closing brace, as what follows a
/// value in an object does.
pub open spec fn closes(x: Seq<char>) -> bool {
    x.len() > 0 && (x[0] == ',' || x[0] == '}')
}

/// Two values whose JSON texts, and what follows them in an object, are
/// alike are the same, and the same follows them. This holds of strings,
/// integers and truth values.
pub proof fn lemma_value_told(v: FieldValue, w: FieldValue, x: Seq<char>, y: Seq<char>)
    requires
        v !is Other,
        w !is Other,
        closes(x),
        closes(y),
        value_text(v) + x == value_text(w) + y,
    ensures
        v == w,
        x == y,
{
    reveal_strlit("true");
    reveal_strlit("false");
    reveal_strlit("\"");
    reveal_strlit("-");
    let left = value_text(v) + x;
    let right = value_text(w) + y;
    assert(value_text(v).len() > 0 && left[0] == value_text(v)[0] && (match v {
        FieldValue::Text(s) => left[0] == '"',
        FieldValue::Int(i) => left[0] == '-' || is_digit(left[0]),
        FieldValue::Flag(b) => left[0] == (if b {
            't'
        } else {
            'f'
        }),
        FieldValue::Other => true,
    })) by {
        match v {
            FieldValue::Int(i) => {
                lemma_digits_shape(
                    if i < 0 {
                        (-i) as nat
                    } else {
                        i as nat
                    },
                );
            },
            _ => {},
        }
    }
    assert(value_text(w).len() > 0 && right[0] == value_text(w)[0] && (match w {
        FieldValue::Text(s) => right[0] == '"',
        FieldValue::Int(i) => right[0] == '-' || is_digit(right[0]),
        FieldValue::Flag(b) => right[0] == (if b {
            't'
        } else {
            'f'
        }),
        FieldValue::Other => true,
    })) by {
        match w {
            FieldValue::Int(i) => {
                lemma_digits_shape(
                    if i < 0 {
                        (-i) as nat
                    } else {
                        i as nat
                    },
                );
            },
            _ => {},
        }
    }
    match v {
        FieldValue::Text(s) => {
            let t = w->Text_0;
            lemma_quoted_unique(s, t, x, y);
        },
        FieldValue::Int(i) => {
            let j = w->Int_0;
            lemma_decimal_told(i as int, j as int, x, y);
        },
        FieldValue::Flag(b) => {
            let c = w->Flag_0;
            assert(b == c);
            lemma_same_front(value_text(v), x, y);
        },
        FieldValue::Other => {},
    }
}

/// A list of texts begins with the first of them, and goes on, after a
/// comma, with the list of the others.
pub proof fn lemma_listed_front(items: Seq<Seq<char>>)
    requires
        items.len() > 0,
    ensures
        listed(items) == if items.len() == 1 {
            items[0]
        } else {
            items[0] + ","@ + listed(items.drop_first())
        },
    decreases items.len(),
{
    if items.len() == 2 {
        assert(items.drop_last() =~= seq![items[0]]);
        assert(items.drop_first() =~= seq![items[1]]);
        assert(listed(items.drop_last()) == items[0]);
        assert(listed(items.drop_first()) == items[1]);
    } else if items.len() > 2 {
        let front = items.drop_last();
        lemma_listed_front(front);
        assert(front[0] == items[0]);
        assert(front.drop_first() =~= items.drop_first().drop_last());
        assert(items.drop_first().last() == items.last());
        assert(listed(items) =~= items[0] + ","@ + listed(items.drop_first()));
    }
}

/// Whether every member holds a string, an integer or a truth value.
pub open spec fn scalars(members: Seq<MemberView>) -> bool {
    forall|i: int| 0 <= i < members.len() ==> (#[trigger] members[i]).value !is Other
}

/// The texts of the members, one for each.
pub open spec fn member_texts(members: Seq<MemberView>) -> Seq<Seq<char>> {
    members.map_values(|m: MemberView| member_text(m))
}

/// Two members whose texts, and what follows them in an object, are alike
/// are the same, and the same follows them.
pub proof fn lemma_member_told(m: MemberView, n: MemberView, x: Seq<char>, y: Seq<char>)
    requires
        m.value !is Other,
        n.value !is Other,
        closes(x),
        closes(y),
        member_text(m) + x == member_text(n) + y,
    ensures
        m == n,
        x == y,
{
    let colon = ":"@;
    let mx = colon + (value_text(m.value) + x);
    let ny = colon + (value_text(n.value) + y);
    assert(member_text(m) + x =~= json_quoted(m.name) + mx);
    assert(member_text(n) + y =~= json_quoted(n.name) + ny);
    lemma_quoted_unique(m.name, n.name, mx, ny);
    lemma_same_front(colon, value_text(m.value) + x, value_text(n.value) + y);
    lemma_value_told(m.value, n.value, x, y);
}

/// What follows the first of several members in an object: the end where
/// it is the only one, else a comma and the others up to the end.
pub open spec fn after_first(members: Seq<MemberView>, x: Seq<char>) -> Seq<char> {
    if members.len() == 1 {
        x
    } else {
        ","@ + (listed(member_texts(members.drop_first())) + x)
    }
}

/// The texts of several members, up to the end, are the text of the first
/// and what follows it.
pub proof fn lemma_members_front(members: Seq<MemberView>, x: Seq<char>)
    requires
        members.len() > 0,
        x.len() > 0 && x[0] == '}',
    ensures
        listed(member_texts(members)) + x == member_text(members[0]) + after_first(members, x),
        closes(after_first(members, x)),
{
    reveal_strlit(",");
    let texts = member_texts(members);
    lemma_listed_front(texts);
    assert(texts[0] == member_text(members[0]));
    assert(texts.drop_first() =~= member_texts(members.drop_first()));
    assert(listed(texts) + x =~= member_text(members[0]) + after_first(members, x));
}

/// Two lists of as many members whose texts, up to the closing brace and
/// what follows it, are alike are the same, and the same follows them.
pub proof fn lemma_members_told(
    ms: Seq<MemberView>,
    ns: Seq<MemberView>,
    x: Seq<char>,
    y: Seq<char>,
)
    requires
        ms.len() == ns.len(),
        scalars(ms),
        scalars(ns),
        x.len() > 0 && x[0] == '}',
        y.len() > 0 && y[0] == '}',
        listed(member_texts(ms)) + x == listed(member_texts(ns)) + y,
    ensures
        ms == ns,
        x == y,
    decreases ms.len(),
{
    if ms.len() == 0 {
        assert(listed(member_texts(ms)) =~= Seq::<char>::empty());
        assert(listed(member_texts(ns)) =~= Seq::<char>::empty());
        assert(x =~= listed(member_texts(ms)) + x);
        assert(y =~= listed(member_texts(ns)) + y);
        assert(ms =~= ns);
    } else {
        let mrest = after_first(ms, x);
        let nrest = after_first(ns, y);
        lemma_members_front(ms, x);
        lemma_members_front(ns, y);
        lemma_member_told(ms[0], ns[0], mrest, nrest);
        let mtail = ms.drop_first();
        let ntail = ns.drop_first();
        if ms.len() > 1 {
            lemma_same_front(
                ","@,
                listed(member_texts(mtail)) + x,
                listed(member_texts(ntail)) + y,
            );
            assert forall|i: int| 0 <= i < mtail.len() implies (#[trigger] mtail[i]).value
                !is Other by {
                assert(mtail[i] == ms[i + 1]);
            }
            assert forall|i: int| 0 <= i < ntail.len() implies (#[trigger] ntail[i]).value
                !is Other by {
                assert(ntail[i] == ns[i + 1]);
            }
            lemma_members_told(mtail, ntail, x, y);
        } else {
            assert(mtail =~= ntail);
        }
        assert(ms =~= seq![ms[0]] + mtail);
        assert(ns =~= seq![ns[0]] + ntail);
    }
}

/// Two objects of as many members, each a string, an integer or a truth
/// value, that are written as the same text hold the same members.
pub proof fn lemma_object_told(ms: Seq<MemberView>, ns: Seq<MemberView>)
    requires
        ms.len() == ns.len(),
        scalars(ms),
        scalars(ns),
        object_text(ms) == object_text(ns),
    ensures
        ms == ns,
{
    reveal_strlit("{");
    reveal_strlit("}");
    let open = "{"@;
    let close = "}"@;
    assert(close[0] == '}');
    assert(object_text(ms) =~= open + (listed(member_texts(ms)) + close));
    assert(object_text(ns) =~= open + (listed(member_texts(ns)) + close));
    lemma_same_front(open, listed(member_texts(ms)) + close, listed(member_texts(ns)) + close);
    lemma_members_told(ms, ns, close, close);
}

} // verus!
