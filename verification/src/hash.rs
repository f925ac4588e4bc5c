//! Content fingerprints over an entity's semantic fields.
//!
//! The fingerprint of a record is a hex string over the record's semantic
//! fields, taken in one fixed order per entity kind, with absent optional
//! fields omitted.  Each present field is rendered as a fixed-width hex
//! length followed by the hex code of each character, so the whole encoding
//! is self-delimiting: identical semantic input always yields the identical
//! string, and any change to a semantic field changes the string (proved
//! below, `lemma_enc_list_injective` and the per-kind corollaries).
use vstd::prelude::*;

verus! {

/// The hex character for a nibble value.
pub open spec fn hex_digit(n: int) -> char {
    if n == 0 {
        '0'
    } else if n == 1 {
        '1'
    } else if n == 2 {
        '2'
    } else if n == 3 {
        '3'
    } else if n == 4 {
        '4'
    } else if n == 5 {
        '5'
    } else if n == 6 {
        '6'
    } else if n == 7 {
        '7'
    } else if n == 8 {
        '8'
    } else if n == 9 {
        '9'
    } else if n == 10 {
        'a'
    } else if n == 11 {
        'b'
    } else if n == 12 {
        'c'
    } else if n == 13 {
        'd'
    } else if n == 14 {
        'e'
    } else {
        'f'
    }
}

pub open spec fn pow16(w: nat) -> int
    decreases w,
{
    if w == 0 {
        1
    } else {
        16 * pow16((w - 1) as nat)
    }
}

/// Big-endian, fixed-width hex rendering of `n`.
pub open spec fn hex_fixed(n: int, w: nat) -> Seq<char>
    decreases w,
{
    if w == 0 {
        Seq::<char>::empty()
    } else {
        hex_fixed(n / 16, (w - 1) as nat).push(hex_digit(n % 16))
    }
}

/// The six-hex-digit rendering of one character's code point.
pub open spec fn enc_char(c: char) -> Seq<char> {
    hex_fixed(c as u32 as int, 6)
}

/// The character blocks of a field, in order.
pub open spec fn enc_chars(s: Seq<char>) -> Seq<char>
    decreases s.len(),
{
    if s.len() == 0 {
        Seq::<char>::empty()
    } else {
        enc_char(s[0]) + enc_chars(s.drop_first())
    }
}

/// One field: a sixteen-hex-digit character count, then the characters.
pub open spec fn enc_str(s: Seq<char>) -> Seq<char> {
    hex_fixed(s.len() as int, 16) + enc_chars(s)
}

/// The fields of a record, present ones only, in the kind's fixed order.
pub open spec fn enc_list(l: Seq<Seq<char>>) -> Seq<char>
    decreases l.len(),
{
    if l.len() == 0 {
        Seq::<char>::empty()
    } else {
        enc_str(l[0]) + enc_list(l.drop_first())
    }
}

/// The fingerprint over a kind's semantic fields; absent fields are omitted.
pub open spec fn hash_fields_spec(fields: Seq<Option<Seq<char>>>) -> Seq<char>
    decreases fields.len(),
{
    if fields.len() == 0 {
        Seq::<char>::empty()
    } else {
        (match fields[0] {
            Some(s) => enc_str(s),
            None => Seq::<char>::empty(),
        }) + hash_fields_spec(fields.drop_first())
    }
}

/// A resource's semantic content is its title.
pub open spec fn resource_hash(title: Seq<char>) -> Seq<char> {
    enc_str(title)
}

/// An annotation's semantic content is its text and its optional color.
pub open spec fn annotation_hash(text: Seq<char>, color: Option<Seq<char>>) -> Seq<char> {
    match color {
        Some(c) => enc_str(text) + enc_str(c),
        None => enc_str(text),
    }
}

/// A comment's semantic content is its body text.
pub open spec fn comment_hash(content: Seq<char>) -> Seq<char> {
    enc_str(content)
}

/// A note's semantic content is its body text.
pub open spec fn note_hash(content: Seq<char>) -> Seq<char> {
    enc_str(content)
}

fn append_hex_digit(r: &mut String, d: u64)
    requires
        d < 16,
    ensures
        final(r)@ == old(r)@.push(hex_digit(d as int)),
{
    let ghost expected = old(r)@.push(hex_digit(d as int));
    if d == 0 {
        r.append("0");
        proof { reveal_strlit("0"); }
    } else if d == 1 {
        r.append("1");
        proof { reveal_strlit("1"); }
    } else if d == 2 {
        r.append("2");
        proof { reveal_strlit("2"); }
    } else if d == 3 {
        r.append("3");
        proof { reveal_strlit("3"); }
    } else if d == 4 {
        r.append("4");
        proof { reveal_strlit("4"); }
    } else if d == 5 {
        r.append("5");
        proof { reveal_strlit("5"); }
    } else if d == 6 {
        r.append("6");
        proof { reveal_strlit("6"); }
    } else if d == 7 {
        r.append("7");
        proof { reveal_strlit("7"); }
    } else if d == 8 {
        r.append("8");
        proof { reveal_strlit("8"); }
    } else if d == 9 {
        r.append("9");
        proof { reveal_strlit("9"); }
    } else if d == 10 {
        r.append("a");
        proof { reveal_strlit("a"); }
    } else if d == 11 {
        r.append("b");
        proof { reveal_strlit("b"); }
    } else if d == 12 {
        r.append("c");
        proof { reveal_strlit("c"); }
    } else if d == 13 {
        r.append("d");
        proof { reveal_strlit("d"); }
    } else if d == 14 {
        r.append("e");
        proof { reveal_strlit("e"); }
    } else {
        r.append("f");
        proof { reveal_strlit("f"); }
    }
    proof {
        assert(r@ =~= expected);
    }
}

fn append_hex_fixed(r: &mut String, n: u64, w: usize)
    ensures
        final(r)@ == old(r)@ + hex_fixed(n as int, w as nat),
    decreases w,
{
    if w == 0 {
        proof {
            assert(r@ =~= old(r)@ + hex_fixed(n as int, 0));
        }
        return ;
    }
    append_hex_fixed(r, n / 16, w - 1);
    append_hex_digit(r, n % 16);
    proof {
        assert(r@ =~= old(r)@ + hex_fixed(n as int, w as nat));
    }
}

/// `enc_chars` consumes one appended character at a time from the right.
proof fn lemma_enc_chars_snoc(s: Seq<char>, c: char)
    ensures
        enc_chars(s.push(c)) == enc_chars(s) + enc_char(c),
    decreases s.len(),
{
    if s.len() == 0 {
        assert(s.push(c)[0] == c);
        assert(s.push(c).len() == 1);
        assert(s.push(c).drop_first() =~= Seq::<char>::empty());
        assert(enc_chars(s.push(c)) == enc_char(c) + enc_chars(Seq::<char>::empty()));
        assert(enc_chars(s.push(c)) =~= enc_chars(s) + enc_char(c));
    } else {
        assert(s.push(c)[0] == s[0]);
        assert(s.push(c).drop_first() =~= s.drop_first().push(c));
        lemma_enc_chars_snoc(s.drop_first(), c);
        assert(enc_chars(s.push(c)) == enc_char(s[0]) + enc_chars(s.drop_first().push(c)));
        assert(enc_chars(s.push(c)) =~= enc_chars(s) + enc_char(c));
    }
}

fn append_enc_str(r: &mut String, s: &str)
    ensures
        final(r)@ == old(r)@ + enc_str(s@),
{
    let len = s.unicode_len();
    append_hex_fixed(r, len as u64, 16);
    let mut i: usize = 0;
    while i < len
        invariant
            len == s@.len(),
            i <= len,
            r@ == old(r)@ + hex_fixed(len as int, 16) + enc_chars(s@.take(i as int)),
        decreases len - i,
    {
        let c = s.get_char(i);
        let code = c as u32;
        append_hex_fixed(r, code as u64, 6);
        proof {
            assert(s@.take(i as int).push(c) =~= s@.take(i + 1 as int));
            lemma_enc_chars_snoc(s@.take(i as int), c);
        }
        i = i + 1;
    }
    proof {
        assert(s@.take(len as int) =~= s@);
        assert(r@ =~= old(r)@ + enc_str(s@));
    }
}

/// The view of a list of optional fields.
pub open spec fn fields_view(v: Seq<Option<String>>) -> Seq<Option<Seq<char>>> {
    v.map(
        |i: int, f: Option<String>|
            match f {
                Some(s) => Some(s@),
                None => None,
            },
    )
}

/// `hash_fields_spec` consumes one appended field at a time from the right.
proof fn lemma_hash_fields_snoc(fields: Seq<Option<Seq<char>>>, f: Option<Seq<char>>)
    ensures
        hash_fields_spec(fields.push(f)) == hash_fields_spec(fields) + (match f {
            Some(s) => enc_str(s),
            None => Seq::<char>::empty(),
        }),
    decreases fields.len(),
{
    if fields.len() == 0 {
        assert(fields.push(f)[0] == f);
        assert(fields.push(f).len() == 1);
        assert(fields.push(f).drop_first() =~= Seq::<Option<Seq<char>>>::empty());
        assert(hash_fields_spec(fields.push(f)) == (match f {
            Some(s) => enc_str(s),
            None => Seq::<char>::empty(),
        }) + hash_fields_spec(Seq::<Option<Seq<char>>>::empty()));
        assert(hash_fields_spec(fields.push(f)) =~= hash_fields_spec(fields) + (match f {
            Some(s) => enc_str(s),
            None => Seq::<char>::empty(),
        }));
    } else {
        assert(fields.push(f)[0] == fields[0]);
        assert(fields.push(f).drop_first() =~= fields.drop_first().push(f));
        lemma_hash_fields_snoc(fields.drop_first(), f);
        assert(hash_fields_spec(fields.push(f)) == (match fields[0] {
            Some(s) => enc_str(s),
            None => Seq::<char>::empty(),
        }) + hash_fields_spec(fields.drop_first().push(f)));
        assert(hash_fields_spec(fields.push(f)) =~= hash_fields_spec(fields) + (match f {
            Some(s) => enc_str(s),
            None => Seq::<char>::empty(),
        }));
    }
}

/// Computes the fingerprint over a kind's semantic fields, absent ones omitted.
pub fn hash_fields(fields: &Vec<Option<String>>) -> (r: String)
    ensures
        r@ == hash_fields_spec(fields_view(fields@)),
{
    let mut r = String::new();
    let mut i: usize = 0;
    while i < fields.len()
        invariant
            i <= fields@.len(),
            r@ == hash_fields_spec(fields_view(fields@.take(i as int))),
        decreases fields@.len() - i,
    {
        match &fields[i] {
            Some(s) => {
                append_enc_str(&mut r, s.as_str());
            },
            None => {},
        }
        proof {
            assert(fields_view(fields@.take(i + 1 as int)) =~= fields_view(
                fields@.take(i as int),
            ).push(
                match fields@[i as int] {
                    Some(s) => Some(s@),
                    None => None,
                },
            ));
            lemma_hash_fields_snoc(
                fields_view(fields@.take(i as int)),
                match fields@[i as int] {
                    Some(s) => Some(s@),
                    None => None,
                },
            );
        }
        i = i + 1;
    }
    proof {
        assert(fields@.take(fields@.len() as int) =~= fields@);
    }
    r
}

/// Fingerprint of a resource: its title.
pub fn compute_resource_hash(title: &str) -> (r: String)
    ensures
        r@ == resource_hash(title@),
{
    let mut r = String::new();
    append_enc_str(&mut r, title);
    proof {
        assert(r@ =~= resource_hash(title@));
    }
    r
}

/// Fingerprint of an annotation: its text, then its color when present.
pub fn compute_annotation_hash(text: &str, color: Option<&str>) -> (r: String)
    ensures
        r@ == annotation_hash(
            text@,
            match color {
                Some(c) => Some(c@),
                None => None,
            },
        ),
{
    let mut r = String::new();
    append_enc_str(&mut r, text);
    match color {
        Some(c) => {
            append_enc_str(&mut r, c);
        },
        None => {},
    }
    r
}

/// Fingerprint of a comment: its body text.
pub fn compute_comment_hash(content: &str) -> (r: String)
    ensures
        r@ == comment_hash(content@),
{
    let mut r = String::new();
    append_enc_str(&mut r, content);
    r
}

/// Fingerprint of a note: its body text.
pub fn compute_note_hash(content: &str) -> (r: String)
    ensures
        r@ == note_hash(content@),
{
    let mut r = String::new();
    append_enc_str(&mut r, content);
    r
}

proof fn lemma_pow16_pos(w: nat)
    ensures
        pow16(w) >= 1,
    decreases w,
{
    if w > 0 {
        lemma_pow16_pos((w - 1) as nat);
    }
}

proof fn lemma_hex_fixed_len(n: int, w: nat)
    ensures
        hex_fixed(n, w).len() == w,
    decreases w,
{
    if w > 0 {
        lemma_hex_fixed_len(n / 16, (w - 1) as nat);
    }
}

proof fn lemma_hex_digit_inj(a: int, b: int)
    requires
        0 <= a < 16,
        0 <= b < 16,
        hex_digit(a) == hex_digit(b),
    ensures
        a == b,
{
}

proof fn lemma_hex_fixed_inj(n1: int, n2: int, w: nat)
    requires
        0 <= n1 < pow16(w),
        0 <= n2 < pow16(w),
        hex_fixed(n1, w) == hex_fixed(n2, w),
    ensures
        n1 == n2,
    decreases w,
{
    if w == 0 {
        // pow16(0) == 1, so both values are 0
    } else {
        let w1 = (w - 1) as nat;
        lemma_hex_fixed_len(n1 / 16, w1);
        lemma_hex_fixed_len(n2 / 16, w1);
        assert(hex_fixed(n1, w).last() == hex_digit(n1 % 16));
        assert(hex_fixed(n2, w).last() == hex_digit(n2 % 16));
        lemma_hex_digit_inj(n1 % 16, n2 % 16);
        assert(hex_fixed(n1, w).drop_last() =~= hex_fixed(n1 / 16, w1));
        assert(hex_fixed(n2, w).drop_last() =~= hex_fixed(n2 / 16, w1));
        lemma_pow16_pos(w1);
        assert(n1 / 16 < pow16(w1)) by (nonlinear_arith)
            requires
                0 <= n1 < 16 * pow16(w1),
                pow16(w1) >= 1,
        ;
        assert(n2 / 16 < pow16(w1)) by (nonlinear_arith)
            requires
                0 <= n2 < 16 * pow16(w1),
                pow16(w1) >= 1,
        ;
        lemma_hex_fixed_inj(n1 / 16, n2 / 16, w1);
        vstd::arithmetic::div_mod::lemma_fundamental_div_mod(n1, 16);
        vstd::arithmetic::div_mod::lemma_fundamental_div_mod(n2, 16);
    }
}

proof fn lemma_enc_char_inj(c1: char, c2: char)
    requires
        enc_char(c1) == enc_char(c2),
    ensures
        c1 == c2,
{
    vstd::utf8::char_is_scalar(c1);
    vstd::utf8::char_is_scalar(c2);
    assert(pow16(6) == 0x1000000) by {
        reveal_with_fuel(pow16, 7);
    }
    lemma_hex_fixed_inj(c1 as u32 as int, c2 as u32 as int, 6);
    vstd::utf8::char_u32_cast(c1, c1 as u32);
    vstd::utf8::char_u32_cast(c2, c2 as u32);
}

/// Splitting a concatenation at the length of its first part.
proof fn lemma_concat_split(a: Seq<char>, b: Seq<char>, c: Seq<char>, d: Seq<char>)
    requires
        a + b == c + d,
        a.len() == c.len(),
    ensures
        a == c,
        b == d,
{
    assert((a + b).len() == a.len() + b.len());
    assert((c + d).len() == c.len() + d.len());
    assert(b.len() == d.len());
    assert forall|i: int| 0 <= i < a.len() implies a[i] == c[i] by {
        assert((a + b)[i] == a[i]);
        assert((c + d)[i] == c[i]);
    }
    assert(a =~= c);
    assert forall|i: int| 0 <= i < b.len() implies b[i] == d[i] by {
        assert((a + b)[a.len() + i] == b[i]);
        assert((c + d)[c.len() + i] == d[i]);
    }
    assert(b =~= d);
}

proof fn lemma_enc_chars_len(s: Seq<char>)
    ensures
        enc_chars(s).len() == 6 * s.len(),
    decreases s.len(),
{
    if s.len() > 0 {
        lemma_hex_fixed_len(s[0] as u32 as int, 6);
        lemma_enc_chars_len(s.drop_first());
    }
}

proof fn lemma_enc_chars_inj(s1: Seq<char>, s2: Seq<char>)
    requires
        s1.len() == s2.len(),
        enc_chars(s1) == enc_chars(s2),
    ensures
        s1 == s2,
    decreases s1.len(),
{
    if s1.len() == 0 {
        assert(s1 =~= s2);
    } else {
        lemma_hex_fixed_len(s1[0] as u32 as int, 6);
        lemma_hex_fixed_len(s2[0] as u32 as int, 6);
        lemma_concat_split(enc_char(s1[0]), enc_chars(s1.drop_first()), enc_char(s2[0]), enc_chars(s2.drop_first()));
        lemma_enc_char_inj(s1[0], s2[0]);
        lemma_enc_chars_inj(s1.drop_first(), s2.drop_first());
        assert forall|i: int| 0 <= i < s1.len() implies s1[i] == s2[i] by {
            if i > 0 {
                assert(s1.drop_first()[i - 1] == s2.drop_first()[i - 1]);
            }
        }
        assert(s1 =~= s2);
    }
}

proof fn lemma_enc_str_len(s: Seq<char>)
    ensures
        enc_str(s).len() == 16 + 6 * s.len(),
{
    lemma_hex_fixed_len(s.len() as int, 16);
    lemma_enc_chars_len(s);
}

proof fn lemma_enc_str_inj(s1: Seq<char>, s2: Seq<char>)
    requires
        s1.len() <= u64::MAX,
        s2.len() <= u64::MAX,
        enc_str(s1) == enc_str(s2),
    ensures
        s1 == s2,
{
    lemma_hex_fixed_len(s1.len() as int, 16);
    lemma_hex_fixed_len(s2.len() as int, 16);
    lemma_concat_split(
        hex_fixed(s1.len() as int, 16),
        enc_chars(s1),
        hex_fixed(s2.len() as int, 16),
        enc_chars(s2),
    );
    assert(pow16(16) == 0x10000000000000000) by {
        reveal_with_fuel(pow16, 17);
    }
    lemma_hex_fixed_inj(s1.len() as int, s2.len() as int, 16);
    lemma_enc_chars_inj(s1, s2);
}

/// The first part of any encoding that starts with a field block is that
/// block's length prefix.
proof fn lemma_enc_str_head(s1: Seq<char>, r1: Seq<char>, s2: Seq<char>, r2: Seq<char>)
    requires
        s1.len() <= u64::MAX,
        s2.len() <= u64::MAX,
        enc_str(s1) + r1 == enc_str(s2) + r2,
    ensures
        s1 == s2,
        r1 == r2,
{
    lemma_enc_str_len(s1);
    lemma_enc_str_len(s2);
    lemma_hex_fixed_len(s1.len() as int, 16);
    lemma_hex_fixed_len(s2.len() as int, 16);
    let whole = enc_str(s1) + r1;
    assert(enc_str(s1) + r1 =~= hex_fixed(s1.len() as int, 16) + (enc_chars(s1) + r1));
    assert(enc_str(s2) + r2 =~= hex_fixed(s2.len() as int, 16) + (enc_chars(s2) + r2));
    lemma_concat_split(
        hex_fixed(s1.len() as int, 16),
        enc_chars(s1) + r1,
        hex_fixed(s2.len() as int, 16),
        enc_chars(s2) + r2,
    );
    assert(pow16(16) == 0x10000000000000000) by {
        reveal_with_fuel(pow16, 17);
    }
    lemma_hex_fixed_inj(s1.len() as int, s2.len() as int, 16);
    lemma_enc_chars_len(s1);
    lemma_enc_chars_len(s2);
    lemma_concat_split(enc_chars(s1), r1, enc_chars(s2), r2);
    lemma_enc_chars_inj(s1, s2);
}

/// All field lengths a fingerprint input may carry.
pub open spec fn fields_bounded(l: Seq<Seq<char>>) -> bool {
    forall|i: int| 0 <= i < l.len() ==> #[trigger] l[i].len() <= u64::MAX
}

proof fn lemma_enc_list_nonempty(l: Seq<Seq<char>>)
    requires
        l.len() > 0,
    ensures
        enc_list(l).len() >= 16,
{
    lemma_enc_str_len(l[0]);
}

/// Two field lists with the same encoding are the same list: the fingerprint
/// is collision-free on a kind's present semantic fields.
pub proof fn lemma_enc_list_injective(l1: Seq<Seq<char>>, l2: Seq<Seq<char>>)
    requires
        fields_bounded(l1),
        fields_bounded(l2),
        enc_list(l1) == enc_list(l2),
    ensures
        l1 == l2,
    decreases l1.len(),
{
    if l1.len() == 0 && l2.len() == 0 {
        assert(l1 =~= l2);
    } else if l1.len() == 0 {
        lemma_enc_list_nonempty(l2);
    } else if l2.len() == 0 {
        lemma_enc_list_nonempty(l1);
    } else {
        lemma_enc_str_head(l1[0], enc_list(l1.drop_first()), l2[0], enc_list(l2.drop_first()));
        assert(fields_bounded(l1.drop_first())) by {
            assert(forall|i: int|
                0 <= i < l1.drop_first().len() ==> #[trigger] l1.drop_first()[i] == l1[i + 1]);
        }
        assert(fields_bounded(l2.drop_first())) by {
            assert(forall|i: int|
                0 <= i < l2.drop_first().len() ==> #[trigger] l2.drop_first()[i] == l2[i + 1]);
        }
        lemma_enc_list_injective(l1.drop_first(), l2.drop_first());
        assert forall|i: int| 0 <= i < l1.len() implies l1[i] == l2[i] by {
            if i > 0 {
                assert(l1.drop_first()[i - 1] == l2.drop_first()[i - 1]);
            }
        }
        assert(l1 =~= l2);
    }
}

/// Hash law for resources: the fingerprint is stable, and two titles collide
/// only when they are equal.
pub proof fn lemma_resource_hash_injective(t1: Seq<char>, t2: Seq<char>)
    requires
        t1.len() <= u64::MAX,
        t2.len() <= u64::MAX,
    ensures
        (resource_hash(t1) == resource_hash(t2)) <==> (t1 == t2),
{
    if resource_hash(t1) == resource_hash(t2) {
        lemma_enc_str_inj(t1, t2);
    }
}

/// Hash law for annotations: fingerprints agree exactly when both the text
/// and the optional color agree, including the color's presence.
pub proof fn lemma_annotation_hash_injective(
    t1: Seq<char>,
    c1: Option<Seq<char>>,
    t2: Seq<char>,
    c2: Option<Seq<char>>,
)
    requires
        t1.len() <= u64::MAX,
        t2.len() <= u64::MAX,
        c1 is Some ==> c1->0.len() <= u64::MAX,
        c2 is Some ==> c2->0.len() <= u64::MAX,
    ensures
        (annotation_hash(t1, c1) == annotation_hash(t2, c2)) <==> (t1 == t2 && c1 == c2),
{
    if annotation_hash(t1, c1) == annotation_hash(t2, c2) {
        match (c1, c2) {
            (Some(x1), Some(x2)) => {
                lemma_enc_str_head(t1, enc_str(x1), t2, enc_str(x2));
                lemma_enc_str_inj(x1, x2);
            },
            (Some(x1), None) => {
                lemma_enc_str_head(t1, enc_str(x1), t2, Seq::<char>::empty());
                lemma_enc_str_len(x1);
                assert(enc_str(x1) =~= Seq::<char>::empty());
            },
            (None, Some(x2)) => {
                lemma_enc_str_head(t1, Seq::<char>::empty(), t2, enc_str(x2));
                lemma_enc_str_len(x2);
                assert(enc_str(x2) =~= Seq::<char>::empty());
            },
            (None, None) => {
                lemma_enc_str_inj(t1, t2);
            },
        }
    }
}

/// Hash law for comments: two bodies collide only when they are equal.
pub proof fn lemma_comment_hash_injective(b1: Seq<char>, b2: Seq<char>)
    requires
        b1.len() <= u64::MAX,
        b2.len() <= u64::MAX,
    ensures
        (comment_hash(b1) == comment_hash(b2)) <==> (b1 == b2),
{
    if comment_hash(b1) == comment_hash(b2) {
        lemma_enc_str_inj(b1, b2);
    }
}

/// Hash law for notes: two bodies collide only when they are equal.
pub proof fn lemma_note_hash_injective(b1: Seq<char>, b2: Seq<char>)
    requires
        b1.len() <= u64::MAX,
        b2.len() <= u64::MAX,
    ensures
        (note_hash(b1) == note_hash(b2)) <==> (b1 == b2),
{
    if note_hash(b1) == note_hash(b2) {
        lemma_enc_str_inj(b1, b2);
    }
}

} // verus!
