//! The version value: major, minor and patch numbers, a pre-release
//! channel and a revision counter within that channel.

use std::cmp::Ordering;
use vstd::prelude::*;

use crate::text::{
    all_digits, chars_of, decimal, same_chars, digit_char, digit_value, digits_value, is_digit, parse_u32,
    parse_u32_chars, push_decimal,
};

verus! {

/// Pre-release maturity stage. The declared order is the rank used when
/// ordering versions: `Final` lowest, then `Nightly`, `Alpha`, `Beta`.
#[derive(Clone, Copy, Debug, PartialEq, Eq, Structural)]
pub enum Channel {
    Final,
    Nightly,
    Alpha,
    Beta,
}

impl Channel {
    /// Position of the channel in the declared order.
    pub open spec fn spec_rank(self) -> nat {
        match self {
            Channel::Final => 0,
            Channel::Nightly => 1,
            Channel::Alpha => 2,
            Channel::Beta => 3,
        }
    }

    /// Lower-case name of the channel as it appears in version text.
    pub open spec fn spec_name(self) -> Seq<char> {
        match self {
            Channel::Final => seq!['f', 'i', 'n', 'a', 'l'],
            Channel::Nightly => seq!['n', 'i', 'g', 'h', 't', 'l', 'y'],
            Channel::Alpha => seq!['a', 'l', 'p', 'h', 'a'],
            Channel::Beta => seq!['b', 'e', 't', 'a'],
        }
    }

    pub fn rank(&self) -> (r: u8)
        ensures
            r == self.spec_rank(),
    {
        match self {
            Channel::Final => 0,
            Channel::Nightly => 1,
            Channel::Alpha => 2,
            Channel::Beta => 3,
        }
    }

    pub fn name(&self) -> (r: String)
        ensures
            r@ == self.spec_name(),
    {
        let mut r = String::new();
        match self {
            Channel::Final => {
                r.push('f');
                r.push('i');
                r.push('n');
                r.push('a');
                r.push('l');
            },
            Channel::Nightly => {
                r.push('n');
                r.push('i');
                r.push('g');
                r.push('h');
                r.push('t');
                r.push('l');
                r.push('y');
            },
            Channel::Alpha => {
                r.push('a');
                r.push('l');
                r.push('p');
                r.push('h');
                r.push('a');
            },
            Channel::Beta => {
                r.push('b');
                r.push('e');
                r.push('t');
                r.push('a');
            },
        }
        assert(r@ =~= self.spec_name());
        r
    }
}

/// A semantic version with a pre-release channel.
#[derive(Clone, Copy, Debug, PartialEq, Eq, Structural)]
pub struct Version {
    pub channel: Channel,
    pub major: u32,
    pub minor: u32,
    pub patch: u32,
    pub revision: u32,
}

/// A version is canonical when a `Final` version carries no revision: the
/// revision is meaningful only on a pre-release channel.
pub open spec fn is_canonical(v: Version) -> bool {
    v.channel == Channel::Final ==> v.revision == 0
}

/// `major.minor.patch` for a final release, otherwise
/// `major.minor.patch-channel.revision`.
pub open spec fn format_version(v: Version) -> Seq<char> {
    let base = decimal(v.major as nat) + seq!['.'] + decimal(v.minor as nat) + seq!['.'] + decimal(
        v.patch as nat,
    );
    if v.channel == Channel::Final {
        base
    } else {
        base + seq!['-'] + v.channel.spec_name() + seq!['.'] + decimal(v.revision as nat)
    }
}

/// `(major, minor, patch, "channel", revision)`, a tuple literal.
pub open spec fn tuple_form(v: Version) -> Seq<char> {
    seq!['('] + decimal(v.major as nat) + seq![',', ' '] + decimal(v.minor as nat) + seq![',', ' ']
        + decimal(v.patch as nat) + seq![',', ' ', '"'] + v.channel.spec_name() + seq![
        '"',
        ',',
        ' ',
    ] + decimal(v.revision as nat) + seq![')']
}

/// The characters that separate the fields of version text.
pub open spec fn is_separator(c: char) -> bool {
    c == '.' || c == '-'
}

/// The fields of `s` between separators, in order; `n` separators give
/// `n + 1` fields, some of which may be empty.
pub open spec fn split_fields(s: Seq<char>) -> Seq<Seq<char>>
    decreases s.len(),
{
    if s.len() == 0 {
        seq![Seq::empty()]
    } else {
        let init = split_fields(s.drop_last());
        if is_separator(s.last()) {
            init.push(Seq::empty())
        } else {
            init.update(init.len() - 1, init.last().push(s.last()))
        }
    }
}

/// Field `i` of `s`, or the empty text where `s` has fewer fields.
pub open spec fn field(s: Seq<char>, i: int) -> Seq<char> {
    if i < split_fields(s).len() {
        split_fields(s)[i]
    } else {
        Seq::empty()
    }
}

/// A numeric field: its value when it reads as a number, otherwise 0.
pub open spec fn number_or_zero(f: Seq<char>) -> u32 {
    match parse_u32(f) {
        Some(n) => n,
        None => 0,
    }
}

/// The channel named by a field; any other text stands for `Final`.
pub open spec fn parse_channel(f: Seq<char>) -> Channel {
    if f == Channel::Nightly.spec_name() {
        Channel::Nightly
    } else if f == Channel::Alpha.spec_name() {
        Channel::Alpha
    } else if f == Channel::Beta.spec_name() {
        Channel::Beta
    } else {
        Channel::Final
    }
}

/// Reads version text: fields 0 to 2 are major, minor and patch, field 3 the
/// channel and field 4 the revision. Missing or unreadable numbers are 0; a
/// missing or unknown channel is `Final`.
pub open spec fn parse_version(s: Seq<char>) -> Version {
    Version {
        channel: parse_channel(field(s, 3)),
        major: number_or_zero(field(s, 0)),
        minor: number_or_zero(field(s, 1)),
        patch: number_or_zero(field(s, 2)),
        revision: number_or_zero(field(s, 4)),
    }
}

/// Three-way comparison of two integers.
pub open spec fn cmp_int(a: int, b: int) -> Ordering {
    if a < b {
        Ordering::Less
    } else if a > b {
        Ordering::Greater
    } else {
        Ordering::Equal
    }
}

/// Version order: major, minor, patch, channel rank and revision compared
/// in turn, ascending.
pub open spec fn compare_versions(a: Version, b: Version) -> Ordering {
    if a.major != b.major {
        cmp_int(a.major as int, b.major as int)
    } else if a.minor != b.minor {
        cmp_int(a.minor as int, b.minor as int)
    } else if a.patch != b.patch {
        cmp_int(a.patch as int, b.patch as int)
    } else if a.channel.spec_rank() != b.channel.spec_rank() {
        cmp_int(a.channel.spec_rank() as int, b.channel.spec_rank() as int)
    } else {
        cmp_int(a.revision as int, b.revision as int)
    }
}

fn cmp_u32(a: u32, b: u32) -> (r: Ordering)
    ensures
        r == cmp_int(a as int, b as int),
{
    if a < b {
        Ordering::Less
    } else if a > b {
        Ordering::Greater
    } else {
        Ordering::Equal
    }
}

fn channel_of_field(f: &Vec<char>) -> (r: Channel)
    ensures
        r == parse_channel(f@),
{
    let nightly = chars_of(Channel::Nightly.name().as_str());
    let alpha = chars_of(Channel::Alpha.name().as_str());
    let beta = chars_of(Channel::Beta.name().as_str());
    if same_chars(f, &nightly) {
        Channel::Nightly
    } else if same_chars(f, &alpha) {
        Channel::Alpha
    } else if same_chars(f, &beta) {
        Channel::Beta
    } else {
        Channel::Final
    }
}

fn number_of_field(f: &Vec<char>) -> (r: u32)
    ensures
        r == number_or_zero(f@),
{
    match parse_u32_chars(f.as_slice()) {
        Some(n) => n,
        None => 0,
    }
}

/// Every text has at least one field.
pub proof fn lemma_split_fields_nonempty(s: Seq<char>)
    ensures
        split_fields(s).len() >= 1,
    decreases s.len(),
{
    if s.len() > 0 {
        lemma_split_fields_nonempty(s.drop_last());
    }
}

impl Version {
    /// The version a project starts from.
    pub fn initial() -> (r: Version)
        ensures
            r == (Version { channel: Channel::Nightly, major: 0, minor: 0, patch: 0, revision: 0 }),
    {
        Version { channel: Channel::Nightly, major: 0, minor: 0, patch: 0, revision: 0 }
    }

    /// The canonical text of the version.
    pub fn formatted(&self) -> (r: String)
        ensures
            r@ == format_version(*self),
    {
        let mut r = String::new();
        push_decimal(&mut r, self.major);
        r.push('.');
        push_decimal(&mut r, self.minor);
        r.push('.');
        push_decimal(&mut r, self.patch);
        if self.channel != Channel::Final {
            r.push('-');
            let name = self.channel.name();
            r.append(name.as_str());
            r.push('.');
            push_decimal(&mut r, self.revision);
        }
        assert(r@ =~= format_version(*self));
        r
    }

    /// The version as a tuple literal, for source files that hold it so.
    pub fn tuple(&self) -> (r: String)
        ensures
            r@ == tuple_form(*self),
    {
        let mut r = String::new();
        r.push('(');
        push_decimal(&mut r, self.major);
        r.push(',');
        r.push(' ');
        push_decimal(&mut r, self.minor);
        r.push(',');
        r.push(' ');
        push_decimal(&mut r, self.patch);
        r.push(',');
        r.push(' ');
        r.push('"');
        let name = self.channel.name();
        r.append(name.as_str());
        r.push('"');
        r.push(',');
        r.push(' ');
        push_decimal(&mut r, self.revision);
        r.push(')');
        assert(r@ =~= tuple_form(*self));
        r
    }

    /// Reads version text; never fails (see `parse_version`).
    pub fn from_str(text: &str) -> (r: Version)
        ensures
            r == parse_version(text@),
    {
        let cs = chars_of(text);
        let mut fields: Vec<Vec<char>> = Vec::new();
        let mut cur: Vec<char> = Vec::new();
        let mut i: usize = 0;
        while i < cs.len()
            invariant
                0 <= i <= cs.len(),
                cs@ == text@,
                fields.len() + 1 == split_fields(cs@.take(i as int)).len(),
                forall|j: int|
                    0 <= j < fields.len() ==> (#[trigger] fields@[j])@ == split_fields(
                        cs@.take(i as int),
                    )[j],
                cur@ == split_fields(cs@.take(i as int)).last(),
            decreases cs.len() - i,
        {
            let c = cs[i];
            assert(cs@.take(i + 1).drop_last() =~= cs@.take(i as int));
            if c == '.' || c == '-' {
                fields.push(cur);
                cur = Vec::new();
                assert(cur@ =~= Seq::<char>::empty());
            } else {
                cur.push(c);
            }
            i = i + 1;
        }
        assert(cs@.take(i as int) =~= text@);
        fields.push(cur);
        let ghost fs = split_fields(text@);
        assert(fields.len() == fs.len());
        assert(forall|j: int| 0 <= j < fields.len() ==> (#[trigger] fields@[j])@ == fs[j]);
        let empty: Vec<char> = Vec::new();
        assert(empty@ =~= Seq::<char>::empty());
        let major = number_of_field(if fields.len() > 0 { &fields[0] } else { &empty });
        let minor = number_of_field(if fields.len() > 1 { &fields[1] } else { &empty });
        let patch = number_of_field(if fields.len() > 2 { &fields[2] } else { &empty });
        let channel = channel_of_field(if fields.len() > 3 { &fields[3] } else { &empty });
        let revision = number_of_field(if fields.len() > 4 { &fields[4] } else { &empty });
        Version { channel, major, minor, patch, revision }
    }

    /// Compares two versions by `compare_versions`.
    pub fn compare(&self, other: &Version) -> (r: Ordering)
        ensures
            r == compare_versions(*self, *other),
    {
        if self.major != other.major {
            cmp_u32(self.major, other.major)
        } else if self.minor != other.minor {
            cmp_u32(self.minor, other.minor)
        } else if self.patch != other.patch {
            cmp_u32(self.patch, other.patch)
        } else {
            let ra = self.channel.rank();
            let rb = other.channel.rank();
            if ra != rb {
                if ra < rb {
                    Ordering::Less
                } else {
                    Ordering::Greater
                }
            } else {
                cmp_u32(self.revision, other.revision)
            }
        }
    }
}

/// Whether `s` holds no separator.
pub open spec fn no_separator(s: Seq<char>) -> bool {
    forall|i: int| 0 <= i < s.len() ==> !is_separator(#[trigger] s[i])
}

proof fn lemma_digit_char(d: nat)
    requires
        d < 10,
    ensures
        is_digit(digit_char(d)),
        digit_value(digit_char(d)) == d,
{
}

/// The decimal notation of `n` is a non-empty string of digits worth `n`.
pub proof fn lemma_decimal(n: nat)
    ensures
        decimal(n).len() > 0,
        all_digits(decimal(n)),
        digits_value(decimal(n)) == n,
        no_separator(decimal(n)),
    decreases n,
{
    lemma_digit_char(n % 10);
    if n >= 10 {
        lemma_decimal(n / 10);
        let d = decimal(n);
        assert(d.drop_last() =~= decimal(n / 10));
        assert(d.last() == digit_char(n % 10));
        assert(digits_value(d) == digits_value(decimal(n / 10)) * 10 + digit_value(digit_char(n % 10)));
        assert(n == (n / 10) * 10 + n % 10);
        assert forall|i: int| 0 <= i < d.len() implies is_digit(#[trigger] d[i]) by {
            if i < d.len() - 1 {
                assert(d[i] == decimal(n / 10)[i]);
            }
        }
    }
    else {
        assert(decimal(n).drop_last() =~= Seq::<char>::empty());
        assert(digits_value(Seq::<char>::empty()) == 0);
        assert(decimal(n).last() == digit_char(n));
        assert(digits_value(decimal(n)) == digit_value(digit_char(n)));
    }
    assert forall|i: int| 0 <= i < decimal(n).len() implies !is_separator(#[trigger] decimal(n)[i]) by {
        assert(is_digit(decimal(n)[i]));
    }
}

/// Reading the decimal notation of a 32-bit number gives the number back.
pub proof fn lemma_parse_decimal(n: u32)
    ensures
        parse_u32(decimal(n as nat)) == Some(n),
{
    lemma_decimal(n as nat);
    assert(is_digit(decimal(n as nat)[0]));
}

/// Appending text without separators extends the last field.
proof fn lemma_split_extend(a: Seq<char>, b: Seq<char>)
    requires
        no_separator(b),
    ensures
        split_fields(a + b) == split_fields(a).update(
            split_fields(a).len() - 1,
            split_fields(a).last() + b,
        ),
    decreases b.len(),
{
    lemma_split_fields_nonempty(a);
    if b.len() == 0 {
        assert(a + b =~= a);
        assert(split_fields(a).last() + b =~= split_fields(a).last());
        assert(split_fields(a).update(split_fields(a).len() - 1, split_fields(a).last())
            =~= split_fields(a));
    } else {
        let b0 = b.drop_last();
        assert(no_separator(b0)) by {
            assert forall|i: int| 0 <= i < b0.len() implies !is_separator(#[trigger] b0[i]) by {
                assert(b0[i] == b[i]);
            }
        }
        lemma_split_extend(a, b0);
        assert((a + b).drop_last() =~= a + b0);
        assert((a + b).last() == b.last());
        assert(!is_separator(b[b.len() - 1]));
        assert((split_fields(a).last() + b0).push(b.last()) =~= split_fields(a).last() + b);
        assert(split_fields(a + b) =~= split_fields(a).update(
            split_fields(a).len() - 1,
            split_fields(a).last() + b,
        ));
    }
}

/// A separator followed by text without separators adds one field.
proof fn lemma_split_new_field(a: Seq<char>, sep: char, f: Seq<char>)
    requires
        is_separator(sep),
        no_separator(f),
    ensures
        split_fields(a + seq![sep] + f) == split_fields(a).push(f),
{
    let x = a + seq![sep];
    assert(x.drop_last() =~= a);
    assert(split_fields(x) == split_fields(a).push(Seq::empty()));
    lemma_split_extend(x, f);
    assert(Seq::<char>::empty() + f =~= f);
    assert(split_fields(x + f) =~= split_fields(a).push(f));
}

/// Text without separators is one field.
proof fn lemma_split_single(f: Seq<char>)
    requires
        no_separator(f),
    ensures
        split_fields(f) == seq![f],
{
    lemma_split_extend(Seq::empty(), f);
    assert(Seq::<char>::empty() + f =~= f);
    assert(split_fields(Seq::<char>::empty()) == seq![Seq::<char>::empty()]);
    assert(seq![Seq::<char>::empty()].update(0, Seq::<char>::empty() + f) =~= seq![f]);
}

/// Reading the canonical text of a canonical version gives the version
/// back. (A `Final` version with a revision is not canonical: its text
/// drops the revision.)
pub proof fn lemma_parse_format(v: Version)
    requires
        is_canonical(v),
    ensures
        parse_version(format_version(v)) == v,
{
    let d1 = decimal(v.major as nat);
    let d2 = decimal(v.minor as nat);
    let d3 = decimal(v.patch as nat);
    let d5 = decimal(v.revision as nat);
    lemma_decimal(v.major as nat);
    lemma_decimal(v.minor as nat);
    lemma_decimal(v.patch as nat);
    lemma_decimal(v.revision as nat);
    lemma_parse_decimal(v.major);
    lemma_parse_decimal(v.minor);
    lemma_parse_decimal(v.patch);
    lemma_parse_decimal(v.revision);
    lemma_split_single(d1);
    lemma_split_new_field(d1, '.', d2);
    lemma_split_new_field(d1 + seq!['.'] + d2, '.', d3);
    let base = d1 + seq!['.'] + d2 + seq!['.'] + d3;
    assert(split_fields(base) == seq![d1, d2, d3]);
    let s = format_version(v);
    if v.channel == Channel::Final {
        assert(split_fields(s).len() == 3);
        assert(field(s, 3) == Seq::<char>::empty());
        assert(field(s, 4) == Seq::<char>::empty());
        assert(parse_u32(Seq::<char>::empty()) is None);
    } else {
        let name = v.channel.spec_name();
        assert(no_separator(name));
        lemma_split_new_field(base, '-', name);
        lemma_split_new_field(base + seq!['-'] + name, '.', d5);
        assert(split_fields(s) == seq![d1, d2, d3, name, d5]);
        assert(field(s, 3) == name);
        assert(field(s, 4) == d5);
        assert(Channel::Nightly.spec_name() != Channel::Alpha.spec_name()) by {
            assert(Channel::Nightly.spec_name().len() != Channel::Alpha.spec_name().len());
        }
        assert(Channel::Nightly.spec_name() != Channel::Beta.spec_name()) by {
            assert(Channel::Nightly.spec_name().len() != Channel::Beta.spec_name().len());
        }
        assert(Channel::Alpha.spec_name() != Channel::Beta.spec_name()) by {
            assert(Channel::Alpha.spec_name().len() != Channel::Beta.spec_name().len());
        }
    }
    assert(field(s, 0) == d1);
    assert(field(s, 1) == d2);
    assert(field(s, 2) == d3);
}

/// Lexicographic comparison of `(major, minor, patch, channel rank,
/// revision)`.
pub open spec fn key_less(a: Version, b: Version) -> bool {
    ||| a.major < b.major
    ||| a.major == b.major && a.minor < b.minor
    ||| a.major == b.major && a.minor == b.minor && a.patch < b.patch
    ||| a.major == b.major && a.minor == b.minor && a.patch == b.patch && a.channel.spec_rank()
        < b.channel.spec_rank()
    ||| a.major == b.major && a.minor == b.minor && a.patch == b.patch && a.channel
        == b.channel && a.revision < b.revision
}

/// `compare_versions` is a strict total order that agrees with the
/// field-by-field comparison of `(major, minor, patch, channel rank,
/// revision)`: it is `Less` exactly on `key_less`, `Equal` exactly on equal
/// versions, and its reverse swaps `Less` and `Greater`.
pub proof fn lemma_compare_total_order(a: Version, b: Version)
    ensures
        compare_versions(a, b) == Ordering::Less <==> key_less(a, b),
        compare_versions(a, b) == Ordering::Equal <==> a == b,
        compare_versions(a, b) == Ordering::Less <==> compare_versions(b, a) == Ordering::Greater,
        compare_versions(a, b) == Ordering::Less || a == b || compare_versions(b, a)
            == Ordering::Less,
        !(compare_versions(a, b) == Ordering::Less && compare_versions(b, a) == Ordering::Less),
{
}

/// `compare_versions` is transitive.
pub proof fn lemma_compare_transitive(a: Version, b: Version, c: Version)
    requires
        compare_versions(a, b) == Ordering::Less,
        compare_versions(b, c) == Ordering::Less,
    ensures
        compare_versions(a, c) == Ordering::Less,
{
}

} // verus!
