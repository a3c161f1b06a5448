//! The strongly-typed identifier value.

use core::marker::PhantomData;

use vstd::prelude::*;

use crate::error::IdError;
use crate::id_class::{
    ascii_eq_ignore_case, case_prefix_matches, is_ascii_alnum, spec_strip_prefix, IdClass,
};
use crate::identifiable::Identifiable;
use crate::uuid_format::{
    db_chars, db_string, db_text_value, is_db_text, lemma_db_round_trip, lemma_db_chars_order,
    lemma_lex_append_common, lemma_lex_asym, lemma_lex_blocks, lex_lt, nibble, parse_db_string,
};

verus! {

/// A 128-bit identifier with costless type constraints.
///
/// The identifier has two representations as a string:
/// - the database form, the bare hyphenated hex value, used only for
///   communication with the database, and
/// - the public form, `<prefix>_<value>`, which should be used everywhere
///   else (JSON, URLs, logs).
///
/// Two identifiers are equal exactly when their underlying values are
/// equal, however they were constructed; ordering follows the raw value,
/// which agrees with the lexicographic order of either textual form.
#[derive(Debug, Hash)]
pub struct Id<O: Identifiable> {
    value: u128,
    class_witness: PhantomData<O>,
}

impl<O: Identifiable> View for Id<O> {
    type V = u128;

    closed spec fn view(&self) -> u128 {
        self.value
    }
}

/// The public text form of the value `v` under `class`: the prefix, an
/// underscore, then the canonical database text.
pub open spec fn spec_public_id(class: IdClass, v: u128) -> Seq<char> {
    class.spec_prefix() + seq!['_'] + db_chars(v)
}

/// What parsing a public text under `class` yields: the value when the
/// prefix, the separator and the hyphenated hex layout are all right,
/// and the first applicable error otherwise.
pub open spec fn spec_parse_public(class: IdClass, s: Seq<char>) -> Result<int, IdError> {
    match spec_strip_prefix(class.spec_prefix(), s) {
        Err(e) => Err(e),
        Ok(rest) => if is_db_text(rest) {
            Ok(db_text_value(rest))
        } else {
            Err(IdError::InvalidFormat)
        },
    }
}

/// Relies on `uuid::Uuid::new_v4` and `uuid::Uuid::as_u128`: a freshly
/// generated random value in the RFC 4122 version-4 layout, returned as
/// its big-endian 128-bit value. Nothing is assumed of the random bits;
/// only the fixed version and variant digits are stated.
#[verifier::external_body]
fn random_v4_value() -> (v: u128)
    ensures
        nibble(v, 12) == 4,
        8 <= nibble(v, 16) <= 11,
{
    uuid::Uuid::new_v4().as_u128()
}

impl<O: Identifiable> Id<O> {
    /// Return the class of an id, usually mapped to a specific struct.
    pub fn class(&self) -> (c: IdClass)
        ensures
            c == O::spec_class(),
            c.wf(),
    {
        O::class()
    }

    /// Return the raw 128-bit value of the identifier.
    pub fn uuid(&self) -> (v: u128)
        ensures
            v == self@,
    {
        self.value
    }

    /// Return the database identifier as a string: the bare hyphenated
    /// hex value, with no class prefix. Use it only towards a storage
    /// column that the schema already constrains to one class.
    pub fn db_id(&self) -> (s: String)
        ensures
            s@ == db_chars(self@),
    {
        db_string(self.value)
    }

    /// Return the public representation as a string, which should be
    /// used in JSON, URLs, or anywhere except the database.
    pub fn public_id(&self) -> (s: String)
        ensures
            s@ == spec_public_id(O::spec_class(), self@),
    {
        let class = O::class();
        let mut s = class.prefix().to_owned();
        s.append("_");
        let db = db_string(self.value);
        s.append(db.as_str());
        proof {
            reveal_strlit("_");
            assert(s@ =~= spec_public_id(O::spec_class(), self@));
        }
        s
    }

    /// Parse an Id from its public representation, checking the class.
    ///
    /// This is the single entry point that validates both class
    /// membership and value format, and the only parse path for text
    /// whose class the caller does not already trust.
    pub fn from_public_id(public_id: &str) -> (r: Result<Self, IdError>)
        ensures
            r is Ok <==> spec_parse_public(O::spec_class(), public_id@) is Ok,
            r is Ok ==> r->Ok_0@ as int == spec_parse_public(O::spec_class(), public_id@)->Ok_0,
            r is Err ==> r->Err_0 == spec_parse_public(O::spec_class(), public_id@)->Err_0,
    {
        let class = O::class();
        match class.strip_prefix(public_id) {
            Err(e) => Err(e),
            Ok(db) => match parse_db_string(db) {
                Err(e) => Err(e),
                Ok(v) => Ok(Id { value: v, class_witness: PhantomData }),
            },
        }
    }

    /// Parse the Id from its database string representation, *not*
    /// checking the class, as the class is not embedded in this
    /// representation. This is a deliberate trust boundary, not an
    /// oversight: a storage column is already scoped to one class by
    /// schema. Never hand untrusted input to this path; it cannot fail
    /// with `WrongClass`.
    pub fn from_db_id(db_id: &str) -> (r: Result<Self, IdError>)
        ensures
            r is Ok <==> is_db_text(db_id@),
            r is Ok ==> r->Ok_0@ as int == db_text_value(db_id@),
            r is Err ==> r->Err_0 == IdError::InvalidFormat,
    {
        match parse_db_string(db_id) {
            Err(e) => Err(e),
            Ok(v) => Ok(Id { value: v, class_witness: PhantomData }),
        }
    }

    /// Build an Id from a raw value without any check.
    ///
    /// For codecs that already know the value came from a correctly-typed
    /// source, such as a database row bound by column type. Never reachable
    /// from untrusted input.
    pub fn unchecked(value: u128) -> (r: Self)
        ensures
            r@ == value,
    {
        Id { value, class_witness: PhantomData }
    }

    /// Build a random Id based on the version-4 (only random) layout of
    /// RFC 4122: the version digit is 4, the variant digit is one of
    /// 8, 9, a, b, and every other digit is uniformly random.
    pub fn random_v4() -> (r: Self)
        ensures
            nibble(r@, 12) == 4,
            8 <= nibble(r@, 16) <= 11,
    {
        Id::unchecked(random_v4_value())
    }
}

/// Parse an Id from its public representation, checking the class.
impl<O: Identifiable> core::str::FromStr for Id<O> {
    type Err = IdError;

    fn from_str(s: &str) -> (r: Result<Self, IdError>) {
        Self::from_public_id(s)
    }
}

impl<O: Identifiable> Clone for Id<O> {
    fn clone(&self) -> (r: Self)
        ensures
            r == *self,
    {
        Id { value: self.value, class_witness: PhantomData }
    }
}

impl<O: Identifiable> Copy for Id<O> {

}

impl<O: Identifiable> PartialEq for Id<O> {
    fn eq(&self, other: &Self) -> (r: bool) {
        self.value == other.value
    }
}

impl<O: Identifiable> Eq for Id<O> {

}

impl<O: Identifiable> vstd::std_specs::cmp::PartialEqSpecImpl for Id<O> {
    open spec fn obeys_eq_spec() -> bool {
        true
    }

    open spec fn eq_spec(&self, other: &Self) -> bool {
        self@ == other@
    }
}

impl<O: Identifiable> PartialOrd for Id<O> {
    fn partial_cmp(&self, other: &Self) -> (r: Option<core::cmp::Ordering>) {
        if self.value < other.value {
            Some(core::cmp::Ordering::Less)
        } else if self.value == other.value {
            Some(core::cmp::Ordering::Equal)
        } else {
            Some(core::cmp::Ordering::Greater)
        }
    }
}

impl<O: Identifiable> vstd::std_specs::cmp::PartialOrdSpecImpl for Id<O> {
    open spec fn obeys_partial_cmp_spec() -> bool {
        true
    }

    open spec fn partial_cmp_spec(&self, other: &Self) -> Option<core::cmp::Ordering> {
        if self@ < other@ {
            Some(core::cmp::Ordering::Less)
        } else if self@ == other@ {
            Some(core::cmp::Ordering::Equal)
        } else {
            Some(core::cmp::Ordering::Greater)
        }
    }
}

/// Law: for every class with a valid prefix and every value, parsing the
/// public form of the value under the same class succeeds and yields the
/// value back.
pub proof fn lemma_parse_public_round_trip(class: IdClass, v: u128)
    requires
        class.wf(),
    ensures
        spec_parse_public(class, spec_public_id(class, v)) == Ok::<int, IdError>(v as int),
{
    let p = class.spec_prefix();
    let s = spec_public_id(class, v);
    assert(s.len() == p.len() + 1 + 36);
    assert forall|i: int| 0 <= i < p.len() implies #[trigger] ascii_eq_ignore_case(
        p[i],
        s[i],
    ) by {
        assert(s[i] == p[i]);
    }
    assert(s[p.len() as int] == '_');
    let rest = s.subrange(p.len() as int + 1, s.len() as int);
    assert(rest =~= db_chars(v));
    lemma_db_round_trip(v);
}

/// Law: a public identifier of class `c1` does not parse under a class
/// `c2` whose prefix is not a case-insensitive prefix of `c1`'s: it
/// fails with `WrongClass`.
///
/// (When `c2`'s prefix is a proper case-insensitive prefix of `c1`'s,
/// the parse still fails, but with `InvalidFormat`; see
/// `lemma_parse_public_prefix_extends`.)
pub proof fn lemma_parse_public_wrong_class(c1: IdClass, c2: IdClass, v: u128)
    requires
        c1.wf(),
        c2.wf(),
        !case_prefix_matches(c2.spec_prefix(), c1.spec_prefix()),
    ensures
        spec_parse_public(c2, spec_public_id(c1, v)) == Err::<int, IdError>(IdError::WrongClass),
{
    let p1 = c1.spec_prefix();
    let p2 = c2.spec_prefix();
    let s = spec_public_id(c1, v);
    assert(s.len() == p1.len() + 1 + 36);
    if case_prefix_matches(p2, s) {
        if p2.len() <= p1.len() {
            assert forall|i: int| 0 <= i < p2.len() implies #[trigger] ascii_eq_ignore_case(
                p2[i],
                p1[i],
            ) by {
                assert(s[i] == p1[i]);
                assert(ascii_eq_ignore_case(p2[i], s[i]));
            }
            assert(case_prefix_matches(p2, p1));
        } else {
            let i = p1.len() as int;
            assert(s[i] == '_');
            assert(ascii_eq_ignore_case(p2[i], s[i]));
            assert(is_ascii_alnum(p2[i]));
            assert(false);
        }
    }
}

/// When one class's prefix properly extends another's, the shorter class
/// rejects the longer class's identifiers with `InvalidFormat`: the
/// prefix matches, but an alphanumeric character stands where the
/// underscore separator is expected.
pub proof fn lemma_parse_public_prefix_extends(c1: IdClass, c2: IdClass, v: u128)
    requires
        c1.wf(),
        c2.wf(),
        case_prefix_matches(c2.spec_prefix(), c1.spec_prefix()),
        c2.spec_prefix().len() < c1.spec_prefix().len(),
    ensures
        spec_parse_public(c2, spec_public_id(c1, v)) == Err::<int, IdError>(
            IdError::InvalidFormat,
        ),
{
    let p1 = c1.spec_prefix();
    let p2 = c2.spec_prefix();
    let s = spec_public_id(c1, v);
    assert(s.len() == p1.len() + 1 + 36);
    assert forall|i: int| 0 <= i < p2.len() implies #[trigger] ascii_eq_ignore_case(
        p2[i],
        s[i],
    ) by {
        assert(s[i] == p1[i]);
        assert(ascii_eq_ignore_case(p2[i], p1[i]));
    }
    assert(case_prefix_matches(p2, s));
    let i = p2.len() as int;
    assert(s[i] == p1[i]);
    assert(is_ascii_alnum(p1[i]));
    assert(s[i] != '_');
}

/// Law: under two classes whose prefixes differ up to ASCII case, a
/// public identifier of the one class never parses as the other. The
/// failure is `WrongClass` in every case but one: when the parsing
/// class's prefix is a proper case-insensitive prefix of the encoding
/// class's, the separator check fails first and reports
/// `InvalidFormat`.
pub proof fn lemma_parse_public_other_class_fails(c1: IdClass, c2: IdClass, v: u128)
    requires
        c1.wf(),
        c2.wf(),
        !case_seq_eq(c2.spec_prefix(), c1.spec_prefix()),
    ensures
        spec_parse_public(c2, spec_public_id(c1, v)) is Err,
{
    if case_prefix_matches(c2.spec_prefix(), c1.spec_prefix()) {
        if c2.spec_prefix().len() == c1.spec_prefix().len() {
            assert(case_seq_eq(c2.spec_prefix(), c1.spec_prefix()));
            assert(false);
        } else {
            lemma_parse_public_prefix_extends(c1, c2, v);
        }
    } else {
        lemma_parse_public_wrong_class(c1, c2, v);
    }
}

/// Two characters equal up to ASCII case are the same hex digit (or
/// both none), and agree on being an underscore or a hyphen.
proof fn lemma_case_eq_char(a: char, b: char)
    requires
        ascii_eq_ignore_case(a, b),
    ensures
        crate::uuid_format::hex_char_val(a) == crate::uuid_format::hex_char_val(b),
        (a == '_') == (b == '_'),
        (a == '-') == (b == '-'),
{
}

/// Equality of whole texts up to ASCII case.
pub open spec fn case_seq_eq(a: Seq<char>, b: Seq<char>) -> bool {
    &&& a.len() == b.len()
    &&& forall|i: int| 0 <= i < a.len() ==> #[trigger] ascii_eq_ignore_case(a[i], b[i])
}

/// Texts equal up to ASCII case have the same hex-digit values at every
/// prefix length.
proof fn lemma_value_prefix_case(a: Seq<char>, b: Seq<char>, n: int)
    requires
        case_seq_eq(a, b),
        a.len() == 36,
        0 <= n <= 32,
    ensures
        crate::uuid_format::value_prefix(a, n) == crate::uuid_format::value_prefix(b, n),
    decreases n,
{
    if n > 0 {
        lemma_value_prefix_case(a, b, n - 1);
        let pos = crate::uuid_format::pos_of_nib(n - 1);
        assert(0 <= pos < 36);
        lemma_case_eq_char(a[pos], b[pos]);
    }
}

/// Law: parsing is ASCII-case-insensitive. Two texts equal up to ASCII
/// case parse identically under any class: the same value, or the same
/// error.
pub proof fn lemma_parse_public_case_insensitive(class: IdClass, s1: Seq<char>, s2: Seq<char>)
    requires
        case_seq_eq(s1, s2),
    ensures
        spec_parse_public(class, s1) == spec_parse_public(class, s2),
{
    let p = class.spec_prefix();
    assert forall|i: int| 0 <= i < p.len() && i < s1.len() implies (ascii_eq_ignore_case(p[i], s1[i])
        == ascii_eq_ignore_case(p[i], s2[i])) by {
        assert(ascii_eq_ignore_case(s1[i], s2[i]));
    }
    assert(case_prefix_matches(p, s1) == case_prefix_matches(p, s2));
    if case_prefix_matches(p, s1) {
        if s1.len() == p.len() {
        } else {
            let i = p.len() as int;
            lemma_case_eq_char(s1[i], s2[i]);
            if s1[i] == '_' {
                let r1 = s1.subrange(i + 1, s1.len() as int);
                let r2 = s2.subrange(i + 1, s2.len() as int);
                assert forall|j: int| 0 <= j < r1.len() implies #[trigger] ascii_eq_ignore_case(
                    r1[j],
                    r2[j],
                ) by {
                    assert(r1[j] == s1[i + 1 + j]);
                    assert(r2[j] == s2[i + 1 + j]);
                }
                assert(case_seq_eq(r1, r2));
                if r1.len() == 36 {
                    assert forall|j: int| 0 <= j < 36 implies (crate::uuid_format::db_char_ok(
                        r1,
                        j,
                    ) == crate::uuid_format::db_char_ok(r2, j)) by {
                        lemma_case_eq_char(r1[j], r2[j]);
                    }
                    assert(is_db_text(r1) == is_db_text(r2));
                    if is_db_text(r1) {
                        lemma_value_prefix_case(r1, r2, 32);
                    }
                } else {
                    assert(!is_db_text(r1));
                    assert(!is_db_text(r2));
                }
            }
        }
    }
}

/// Law: for any two identifier values of one class, the raw 128-bit
/// order, the lexicographic order of the public forms, and the
/// lexicographic order of the database forms all agree.
pub proof fn lemma_public_order(class: IdClass, v1: u128, v2: u128)
    ensures
        v1 < v2 <==> lex_lt(spec_public_id(class, v1), spec_public_id(class, v2)),
        v1 < v2 <==> lex_lt(db_chars(v1), db_chars(v2)),
{
    lemma_db_chars_order(v1, v2);
    let p = class.spec_prefix() + seq!['_'];
    lemma_lex_append_common(p, db_chars(v1), db_chars(v2));
    assert(spec_public_id(class, v1) =~= p + db_chars(v1));
    assert(spec_public_id(class, v2) =~= p + db_chars(v2));
}

/// Strict lexicographic (elementwise) order on sequences of identifier
/// values.
pub open spec fn lex_lt_vals(xs: Seq<u128>, ys: Seq<u128>) -> bool
    decreases xs.len(),
{
    if ys.len() == 0 {
        false
    } else if xs.len() == 0 {
        true
    } else if xs[0] < ys[0] {
        true
    } else if xs[0] == ys[0] {
        lex_lt_vals(xs.drop_first(), ys.drop_first())
    } else {
        false
    }
}

/// The concatenation of the public forms of a sequence of values.
pub open spec fn concat_public(class: IdClass, xs: Seq<u128>) -> Seq<char>
    decreases xs.len(),
{
    if xs.len() == 0 {
        Seq::empty()
    } else {
        spec_public_id(class, xs[0]) + concat_public(class, xs.drop_first())
    }
}

/// Law: ordering sequences of identifier values elementwise agrees with
/// ordering the concatenations of their public forms lexicographically:
/// a sequence of ids may serve as a sort key in either form.
pub proof fn lemma_concat_public_order(class: IdClass, xs: Seq<u128>, ys: Seq<u128>)
    ensures
        lex_lt_vals(xs, ys) <==> lex_lt(concat_public(class, xs), concat_public(class, ys)),
    decreases xs.len() + ys.len(),
{
    if ys.len() == 0 {
    } else if xs.len() == 0 {
        assert(concat_public(class, ys).len() > 0);
    } else {
        let a1 = spec_public_id(class, xs[0]);
        let a2 = spec_public_id(class, ys[0]);
        let r1 = concat_public(class, xs.drop_first());
        let r2 = concat_public(class, ys.drop_first());
        lemma_lex_blocks(a1, r1, a2, r2);
        if a1 == a2 {
            lemma_db_round_trip(xs[0]);
            lemma_db_round_trip(ys[0]);
            let p = class.spec_prefix().len() as int + 1;
            assert(db_chars(xs[0]) =~= a1.subrange(p, a1.len() as int));
            assert(db_chars(ys[0]) =~= a2.subrange(p, a2.len() as int));
            assert(xs[0] == ys[0]);
            lemma_concat_public_order(class, xs.drop_first(), ys.drop_first());
        } else {
            assert(xs[0] != ys[0]);
            lemma_public_order(class, xs[0], ys[0]);
            if ys[0] < xs[0] {
                lemma_public_order(class, ys[0], xs[0]);
                lemma_lex_asym(a2, a1);
            }
        }
    }
}

} // verus!
