//! Struct definitions and the default values of types.

use vstd::prelude::*;
use vstd::slice::slice_subrange;

use crate::expression::{
    digit_of, digits_value, is_digit_in, lemma_digits_value_monotone, lemma_skip_digits_bounds,
    skip_digits, skip_digits_from,
};
use crate::text::{
    append_chars, append_str, copy_chars, decimal, decimal_digits, equals_str,
    lemma_skip_whitespace_bounds, matches_at, same_chars, skip_whitespace, skip_whitespace_from,
    str_occurs_at,
};

verus! {

/// Deepest nesting of structs in structs for which a default value is
/// made. A struct that holds itself ends here, without a value.
pub const MAX_STRUCT_DEPTH: usize = 64;

/// A member of a struct.
pub struct StructMember {
    pub glsl_type: Vec<char>,
    pub name: Vec<char>,
    /// The member's array suffix, such as `[3]` or `[2][3]`.
    pub array_specifier: Option<Vec<char>>,
}

/// A struct member as plain values.
pub struct MemberModel {
    pub glsl_type: Seq<char>,
    pub name: Seq<char>,
    pub array_specifier: Option<Seq<char>>,
}

impl StructMember {
    /// The member as plain values.
    pub open spec fn model(&self) -> MemberModel {
        MemberModel {
            glsl_type: self.glsl_type@,
            name: self.name@,
            array_specifier: match self.array_specifier {
                Some(a) => Some(a@),
                None => None,
            },
        }
    }
}

/// The members as plain values.
pub open spec fn member_models(members: Seq<StructMember>) -> Seq<MemberModel> {
    members.map_values(|m: StructMember| m.model())
}

/// A struct with its members in order.
pub struct StructDefinition {
    pub name: Vec<char>,
    pub members: Vec<StructMember>,
}

/// The structs that are known: a mapping from names to members.
pub type Structs = Map<Seq<char>, Seq<MemberModel>>;

/// The mapping that a sequence of definitions leaves; a later definition of
/// a name replaces an earlier one.
pub open spec fn structs_of(definitions: Seq<StructDefinition>) -> Structs
    decreases definitions.len(),
{
    if definitions.len() == 0 {
        Map::empty()
    } else {
        structs_of(definitions.drop_last()).insert(
            definitions.last().name@,
            member_models(definitions.last().members@),
        )
    }
}

/// The structs found so far in one pass.
pub struct StructTable {
    definitions: Vec<StructDefinition>,
}

impl View for StructTable {
    type V = Structs;

    closed spec fn view(&self) -> Structs {
        structs_of(self.definitions@)
    }
}

impl StructTable {
    /// A table without structs.
    pub fn new() -> (t: StructTable)
        ensures
            t@ == Map::<Seq<char>, Seq<MemberModel>>::empty(),
    {
        StructTable { definitions: Vec::new() }
    }

    /// Adds a struct, replacing an earlier one of the same name.
    pub fn register(&mut self, definition: StructDefinition)
        ensures
            final(self)@ == old(self)@.insert(
                definition.name@,
                member_models(definition.members@),
            ),
    {
        self.definitions.push(definition);
        assert(self.definitions@.drop_last() =~= old(self).definitions@);
    }

    /// The struct of that name.
    pub fn get(&self, name: &[char]) -> (r: Option<&StructDefinition>)
        ensures
            match r {
                Some(d) => self@.contains_key(name@) && self@[name@] == member_models(d.members@),
                None => !self@.contains_key(name@),
            },
    {
        let mut k: usize = self.definitions.len();
        assert(self.definitions@.take(k as int) =~= self.definitions@);
        while k > 0
            invariant
                k <= self.definitions.len(),
                structs_of(self.definitions@.take(k as int)).contains_key(name@)
                    == self@.contains_key(name@),
                self@.contains_key(name@) ==> structs_of(self.definitions@.take(k as int))[name@]
                    == self@[name@],
            decreases k,
        {
            k -= 1;
            assert(self.definitions@.take(k + 1).drop_last() =~= self.definitions@.take(k as int));
            assert(self.definitions@.take(k + 1).last() == self.definitions@[k as int]);
            if same_chars(self.definitions[k].name.as_slice(), name) {
                return Some(&self.definitions[k]);
            }
        }
        None
    }

    /// Whether a struct of that name is known.
    pub fn contains(&self, name: &[char]) -> (r: bool)
        ensures
            r == self@.contains_key(name@),
    {
        self.get(name).is_some()
    }
}

/// One `[N]` of an array specifier.
pub struct Dimension {
    /// Where the digits begin.
    pub digits_start: int,
    /// Where the digits end.
    pub digits_end: int,
    /// Position after the `]`.
    pub end: int,
}

/// The dimension that begins at position `i`: `[`, whitespace, decimal
/// digits, whitespace, `]`.
pub open spec fn dimension_at(s: Seq<char>, i: int) -> Option<Dimension> {
    let a = skip_whitespace(s, i + 1);
    let b = skip_digits(s, a, 10);
    let c = skip_whitespace(s, b);
    if 0 <= i < s.len() && s[i] == '[' && a < b && c < s.len() && s[c] == ']' {
        Some(Dimension { digits_start: a, digits_end: b, end: c + 1 })
    } else {
        None
    }
}

/// A dimension holds at least one digit and ends inside the text.
pub proof fn lemma_dimension_bounds(s: Seq<char>, i: int)
    requires
        0 <= i < s.len(),
    ensures
        dimension_at(s, i) matches Some(d) ==> i < d.digits_start < d.digits_end < d.end
            <= s.len(),
{
    lemma_skip_whitespace_bounds(s, i + 1);
    let a = skip_whitespace(s, i + 1);
    lemma_skip_digits_bounds(s, a, 10);
    lemma_skip_whitespace_bounds(s, skip_digits(s, a, 10));
}

/// The sizes of the dimensions of `s` from position `i` on, appended to
/// `acc`. A size that does not fit the machine's word is left out.
pub open spec fn dims_from(s: Seq<char>, i: int, acc: Seq<usize>) -> Seq<usize>
    decreases s.len() - i,
{
    if 0 <= i < s.len() {
        match dimension_at(s, i) {
            Some(d) => {
                proof {
                    lemma_dimension_bounds(s, i);
                }
                let v = digits_value(s, d.digits_start, d.digits_end, 10);
                if v <= usize::MAX {
                    dims_from(s, d.end, acc.push(v as usize))
                } else {
                    dims_from(s, d.end, acc)
                }
            },
            None => dims_from(s, i + 1, acc),
        }
    } else {
        acc
    }
}

/// The sizes of the dimensions of an array specifier, in order.
pub open spec fn array_dims(s: Seq<char>) -> Seq<usize> {
    dims_from(s, 0, Seq::empty())
}

/// `element`, `n` times, with `separator` between.
pub open spec fn repeated(element: Seq<char>, n: nat, separator: Seq<char>) -> Seq<char>
    decreases n,
{
    if n == 0 {
        Seq::empty()
    } else if n == 1 {
        element
    } else {
        repeated(element, (n - 1) as nat, separator) + separator + element
    }
}

/// The items with `separator` between.
pub open spec fn joined(items: Seq<Seq<char>>, separator: Seq<char>) -> Seq<char>
    decreases items.len(),
{
    if items.len() == 0 {
        Seq::empty()
    } else if items.len() == 1 {
        items[0]
    } else {
        joined(items.drop_last(), separator) + separator + items.last()
    }
}

/// The dimensions written as `[N][M]...`.
pub open spec fn dims_text(dims: Seq<usize>) -> Seq<char>
    decreases dims.len(),
{
    if dims.len() == 0 {
        Seq::empty()
    } else {
        dims_text(dims.drop_last()) + seq!['['] + decimal(dims.last() as nat) + seq![']']
    }
}

/// The default value of a type that is no array: zero for the scalars, a
/// constructor with one zero for vectors and matrices, and for a struct a
/// constructor with the default values of all members, if each member has
/// one. `fuel` bounds the nesting of structs.
pub open spec fn scalar_or_struct_default(
    glsl_type: Seq<char>,
    structs: Structs,
    fuel: nat,
) -> Option<Seq<char>>
    decreases fuel, 1int, 0int,
{
    if glsl_type == "float"@ {
        Some("0.0"@)
    } else if glsl_type == "int"@ {
        Some("0"@)
    } else if glsl_type == "uint"@ {
        Some("0u"@)
    } else if glsl_type == "bool"@ {
        Some("false"@)
    } else if matches_at(glsl_type, 0, "vec"@) || matches_at(glsl_type, 0, "mat"@) {
        Some(glsl_type + "(0.0)"@)
    } else if matches_at(glsl_type, 0, "ivec"@) {
        Some(glsl_type + "(0)"@)
    } else if matches_at(glsl_type, 0, "uvec"@) {
        Some(glsl_type + "(0u)"@)
    } else if matches_at(glsl_type, 0, "bvec"@) {
        Some(glsl_type + "(false)"@)
    } else if structs.contains_key(glsl_type) && fuel > 0 {
        match member_defaults(structs[glsl_type], structs, (fuel - 1) as nat) {
            Some(values) => Some(glsl_type + seq!['('] + joined(values, ", "@) + seq![')']),
            None => None,
        }
    } else {
        None
    }
}

/// The default values of the members, in order, or nothing if some member
/// has none.
pub open spec fn member_defaults(
    members: Seq<MemberModel>,
    structs: Structs,
    fuel: nat,
) -> Option<Seq<Seq<char>>>
    decreases fuel, 4int, members.len(),
{
    if members.len() == 0 {
        Some(Seq::empty())
    } else {
        match (
            member_defaults(members.drop_last(), structs, fuel),
            default_value(
                members.last().glsl_type,
                members.last().array_specifier,
                structs,
                fuel,
            ),
        ) {
            (Some(values), Some(value)) => Some(values.push(value)),
            _ => None,
        }
    }
}

/// The default value of an array of `base` with the dimensions `dims`: a
/// constructor for the last dimension whose elements are the default values
/// of the array without that dimension.
pub open spec fn array_initializer(
    base: Seq<char>,
    dims: Seq<usize>,
    structs: Structs,
    fuel: nat,
) -> Option<Seq<char>>
    decreases fuel, 2int, dims.len(),
{
    if dims.len() == 0 {
        scalar_or_struct_default(base, structs, fuel)
    } else {
        match array_initializer(base, dims.drop_last(), structs, fuel) {
            Some(element) => Some(
                base + dims_text(dims.drop_last()) + seq!['['] + decimal(dims.last() as nat)
                    + seq![']', '('] + repeated(element, dims.last() as nat, ", "@) + seq![')'],
            ),
            None => None,
        }
    }
}

/// The default value of a type with an optional array specifier. An array
/// without a dimension, or with a dimension of size zero, has none.
pub open spec fn default_value(
    glsl_type: Seq<char>,
    array_specifier: Option<Seq<char>>,
    structs: Structs,
    fuel: nat,
) -> Option<Seq<char>>
    decreases fuel, 3int, 0int,
{
    match array_specifier {
        Some(s) => {
            let dims = array_dims(s);
            if dims.len() == 0 || dims.contains(0usize) {
                None
            } else {
                array_initializer(glsl_type, dims, structs, fuel)
            }
        },
        None => scalar_or_struct_default(glsl_type, structs, fuel),
    }
}

/// Whether `t` is none of the names that have a built-in default value.
pub open spec fn is_plain_name(t: Seq<char>) -> bool {
    &&& t != "float"@
    &&& t != "int"@
    &&& t != "uint"@
    &&& t != "bool"@
    &&& !matches_at(t, 0, "vec"@)
    &&& !matches_at(t, 0, "mat"@)
    &&& !matches_at(t, 0, "ivec"@)
    &&& !matches_at(t, 0, "uvec"@)
    &&& !matches_at(t, 0, "bvec"@)
}

/// The default values of the first `k` members, each of which has one.
pub open spec fn member_values(
    members: Seq<MemberModel>,
    k: int,
    structs: Structs,
    fuel: nat,
) -> Seq<Seq<char>> {
    Seq::new(
        k as nat,
        |j: int|
            default_value(members[j].glsl_type, members[j].array_specifier, structs, fuel)->0,
    )
}

/// Members that all have a default value have them collected in order.
pub proof fn lemma_member_defaults_all(members: Seq<MemberModel>, structs: Structs, fuel: nat)
    requires
        forall|j: int|
            0 <= j < members.len() ==> default_value(
                #[trigger] members[j].glsl_type,
                members[j].array_specifier,
                structs,
                fuel,
            ) is Some,
    ensures
        member_defaults(members, structs, fuel) == Some(
            member_values(members, members.len() as int, structs, fuel),
        ),
    decreases members.len(),
{
    if members.len() > 0 {
        let rest = members.drop_last();
        assert forall|j: int| 0 <= j < rest.len() implies default_value(
            #[trigger] rest[j].glsl_type,
            rest[j].array_specifier,
            structs,
            fuel,
        ) is Some by {
            assert(rest[j] == members[j]);
        }
        lemma_member_defaults_all(rest, structs, fuel);
        let last = members.last();
        assert(default_value(last.glsl_type, last.array_specifier, structs, fuel) is Some);
        assert(member_values(members, members.len() as int, structs, fuel) =~= member_values(
            rest,
            rest.len() as int,
            structs,
            fuel,
        ).push(default_value(last.glsl_type, last.array_specifier, structs, fuel)->0));
    } else {
        assert(member_values(members, 0, structs, fuel) =~= Seq::empty());
    }
}

/// A struct whose members all have a default value has one itself: the
/// constructor call with every member's default value, none left out. This
/// holds at every depth of nesting, so a struct made of such structs has a
/// fully nested constructor call.
pub proof fn lemma_struct_default_is_complete(t: Seq<char>, structs: Structs, fuel: nat)
    requires
        is_plain_name(t),
        structs.contains_key(t),
        fuel > 0,
        forall|j: int|
            0 <= j < structs[t].len() ==> default_value(
                #[trigger] structs[t][j].glsl_type,
                structs[t][j].array_specifier,
                structs,
                (fuel - 1) as nat,
            ) is Some,
    ensures
        scalar_or_struct_default(t, structs, fuel) == Some(
            t + seq!['('] + joined(
                member_values(structs[t], structs[t].len() as int, structs, (fuel - 1) as nat),
                ", "@,
            ) + seq![')'],
        ),
{
    lemma_member_defaults_all(structs[t], structs, (fuel - 1) as nat);
}

/// The initializer of an array of two dimensions nests from the last
/// dimension: for `T[a][b]` it is the constructor `T[a][b](...)` of `b`
/// elements, each the constructor `T[a](...)` of `a` default values of `T`.
pub proof fn lemma_two_dimensions_nest(
    base: Seq<char>,
    a: usize,
    b: usize,
    structs: Structs,
    fuel: nat,
)
    requires
        scalar_or_struct_default(base, structs, fuel) is Some,
    ensures
        array_initializer(base, seq![a, b], structs, fuel) == Some(
            base + seq!['['] + decimal(a as nat) + seq![']'] + seq!['['] + decimal(b as nat)
                + seq![']', '('] + repeated(
                base + seq!['['] + decimal(a as nat) + seq![']', '('] + repeated(
                    scalar_or_struct_default(base, structs, fuel)->0,
                    a as nat,
                    ", "@,
                ) + seq![')'],
                b as nat,
                ", "@,
            ) + seq![')'],
        ),
{
    let value = scalar_or_struct_default(base, structs, fuel)->0;
    let none = Seq::<usize>::empty();
    assert(seq![a, b].drop_last() =~= seq![a]);
    assert(seq![a].drop_last() =~= none);
    assert(array_initializer(base, none, structs, fuel) == Some(value));
    assert(dims_text(none) =~= Seq::<char>::empty());
    let inner = base + seq!['['] + decimal(a as nat) + seq![']', '('] + repeated(
        value,
        a as nat,
        ", "@,
    ) + seq![')'];
    assert(array_initializer(base, seq![a], structs, fuel) == Some(
        base + dims_text(none) + seq!['['] + decimal(a as nat) + seq![']', '('] + repeated(
            value,
            a as nat,
            ", "@,
        ) + seq![')'],
    ));
    assert(base + dims_text(none) =~= base);
    assert(array_initializer(base, seq![a], structs, fuel) == Some(inner));
    assert(dims_text(seq![a]) =~= seq!['['] + decimal(a as nat) + seq![']']);
    assert(base + dims_text(seq![a]) + seq!['['] + decimal(b as nat) + seq![']', '('] + repeated(
        inner,
        b as nat,
        ", "@,
    ) + seq![')'] =~= base + seq!['['] + decimal(a as nat) + seq![']'] + seq!['['] + decimal(
        b as nat,
    ) + seq![']', '('] + repeated(inner, b as nat, ", "@) + seq![')']);
}

/// The views of the texts of `v`.
pub open spec fn texts(v: Seq<Vec<char>>) -> Seq<Seq<char>> {
    v.map_values(|t: Vec<char>| t@)
}

/// Reads the decimal number whose digits stand from `start` up to `end`.
pub fn read_size(s: &[char], start: usize, end: usize) -> (r: Option<usize>)
    requires
        start <= end <= s.len(),
        forall|k: int| start <= k < end ==> is_digit_in(s@[k], 10),
    ensures
        r == if digits_value(s@, start as int, end as int, 10) <= usize::MAX {
            Some(digits_value(s@, start as int, end as int, 10) as usize)
        } else {
            None
        },
{
    let mut acc: usize = 0;
    let mut i: usize = start;
    while i < end
        invariant
            start <= i <= end <= s.len(),
            forall|k: int| start <= k < end ==> is_digit_in(s@[k], 10),
            acc == digits_value(s@, start as int, i as int, 10),
        decreases end - i,
    {
        let d = digit_of(s[i]);
        proof {
            lemma_digits_value_monotone(s@, start as int, i + 1, end as int, 10);
        }
        match acc.checked_mul(10) {
            None => {
                return None;
            },
            Some(m) => {
                match m.checked_add(d as usize) {
                    None => {
                        return None;
                    },
                    Some(v) => {
                        acc = v;
                    },
                }
            },
        }
        i += 1;
    }
    Some(acc)
}

/// The dimension that begins at position `i`: where its digits begin and
/// end, and where it ends.
pub fn parse_dimension(s: &[char], i: usize) -> (r: Option<(usize, usize, usize)>)
    requires
        i < s.len(),
    ensures
        match dimension_at(s@, i as int) {
            Some(d) => r == Some((d.digits_start as usize, d.digits_end as usize, d.end as usize))
                && i < d.digits_start < d.digits_end < d.end <= s.len() && forall|k: int|
                d.digits_start <= k < d.digits_end ==> is_digit_in(s@[k], 10),
            None => r is None,
        },
{
    proof {
        lemma_dimension_bounds(s@, i as int);
    }
    if s[i] != '[' {
        return None;
    }
    let a = skip_whitespace_from(s, i + 1);
    let b = skip_digits_from(s, a, 10);
    let c = skip_whitespace_from(s, b);
    if a < b && c < s.len() && s[c] == ']' {
        Some((a, b, c + 1))
    } else {
        None
    }
}

/// The sizes of the dimensions of an array specifier.
pub fn parse_dims(s: &[char]) -> (dims: Vec<usize>)
    ensures
        dims@ == array_dims(s@),
{
    let mut dims: Vec<usize> = Vec::new();
    let mut i: usize = 0;
    while i < s.len()
        invariant
            i <= s.len(),
            dims_from(s@, i as int, dims@) == array_dims(s@),
        decreases s.len() - i,
    {
        match parse_dimension(s, i) {
            Some((a, b, end)) => {
                match read_size(s, a, b) {
                    Some(v) => {
                        dims.push(v);
                    },
                    None => {},
                }
                i = end;
            },
            None => {
                i += 1;
            },
        }
    }
    dims
}

/// Appends `element`, `n` times, with `separator` between.
pub fn append_repeated(out: &mut Vec<char>, element: &[char], n: usize, separator: &str)
    ensures
        final(out)@ == old(out)@ + repeated(element@, n as nat, separator@),
{
    let mut k: usize = 0;
    assert(out@ =~= old(out)@ + repeated(element@, 0, separator@));
    while k < n
        invariant
            k <= n,
            out@ == old(out)@ + repeated(element@, k as nat, separator@),
        decreases n - k,
    {
        let ghost before = out@;
        if k > 0 {
            append_str(out, separator);
        }
        append_chars(out, element);
        proof {
            if k == 0 {
                assert(out@ =~= old(out)@ + repeated(element@, 1, separator@));
            } else {
                assert(out@ =~= old(out)@ + (repeated(element@, k as nat, separator@)
                    + separator@ + element@));
            }
        }
        k += 1;
    }
}

/// The items with `separator` between.
pub fn join_texts(items: &Vec<Vec<char>>, separator: &str) -> (r: Vec<char>)
    ensures
        r@ == joined(texts(items@), separator@),
{
    let mut r: Vec<char> = Vec::new();
    let mut i: usize = 0;
    assert(texts(items@).take(0) =~= Seq::empty());
    while i < items.len()
        invariant
            i <= items.len(),
            r@ == joined(texts(items@).take(i as int), separator@),
        decreases items.len() - i,
    {
        let ghost before = r@;
        if i > 0 {
            append_str(&mut r, separator);
        }
        append_chars(&mut r, items[i].as_slice());
        proof {
            let prefix = texts(items@).take(i + 1);
            assert(prefix.drop_last() =~= texts(items@).take(i as int));
            assert(prefix.last() == items@[i as int]@);
            if i == 0 {
                assert(prefix[0] == items@[0]@);
                assert(r@ =~= items@[0]@);
            } else {
                assert(r@ =~= before + separator@ + items@[i as int]@);
            }
        }
        i += 1;
    }
    assert(texts(items@).take(items.len() as int) =~= texts(items@));
    r
}

/// The dimensions written as `[N][M]...`.
pub fn write_dims(dims: &[usize]) -> (r: Vec<char>)
    ensures
        r@ == dims_text(dims@),
{
    let mut r: Vec<char> = Vec::new();
    let mut i: usize = 0;
    assert(dims@.take(0) =~= Seq::empty());
    while i < dims.len()
        invariant
            i <= dims.len(),
            r@ == dims_text(dims@.take(i as int)),
        decreases dims.len() - i,
    {
        let ghost before = r@;
        r.push('[');
        append_chars(&mut r, decimal_digits(dims[i]).as_slice());
        r.push(']');
        proof {
            let prefix = dims@.take(i + 1);
            assert(prefix.drop_last() =~= dims@.take(i as int));
            assert(r@ =~= before + seq!['['] + decimal(dims@[i as int] as nat) + seq![']']);
        }
        i += 1;
    }
    assert(dims@.take(dims.len() as int) =~= dims@);
    r
}

/// Once a member lacks a default value, the struct lacks one.
pub proof fn lemma_member_defaults_none(
    members: Seq<MemberModel>,
    k: int,
    structs: Structs,
    fuel: nat,
)
    requires
        0 <= k <= members.len(),
        member_defaults(members.take(k), structs, fuel) is None,
    ensures
        member_defaults(members, structs, fuel) is None,
    decreases members.len() - k,
{
    if k < members.len() {
        assert(members.take(k + 1).drop_last() =~= members.take(k));
        lemma_member_defaults_none(members, k + 1, structs, fuel);
    } else {
        assert(members.take(k) =~= members);
    }
}

/// A text that begins with `prefix` and ends with `suffix`.
fn wrapped(prefix: &[char], suffix: &str) -> (r: Vec<char>)
    ensures
        r@ == prefix@ + suffix@,
{
    let mut r = copy_chars(prefix);
    append_str(&mut r, suffix);
    r
}

/// The text `lit` as characters.
fn literal(lit: &str) -> (r: Vec<char>)
    ensures
        r@ == lit@,
{
    crate::text::chars_of(lit)
}

/// Makes the default value of a type that is no array.
#[verifier::loop_isolation(false)]
pub fn make_scalar_or_struct_default(glsl_type: &[char], table: &StructTable, fuel: usize) -> (r:
    Option<Vec<char>>)
    ensures
        match scalar_or_struct_default(glsl_type@, table@, fuel as nat) {
            Some(v) => r matches Some(t) && t@ == v,
            None => r is None,
        },
    decreases fuel, 1int, 0int,
{
    if equals_str(glsl_type, "float") {
        Some(literal("0.0"))
    } else if equals_str(glsl_type, "int") {
        Some(literal("0"))
    } else if equals_str(glsl_type, "uint") {
        Some(literal("0u"))
    } else if equals_str(glsl_type, "bool") {
        Some(literal("false"))
    } else if str_occurs_at(glsl_type, 0, "vec") || str_occurs_at(glsl_type, 0, "mat") {
        Some(wrapped(glsl_type, "(0.0)"))
    } else if str_occurs_at(glsl_type, 0, "ivec") {
        Some(wrapped(glsl_type, "(0)"))
    } else if str_occurs_at(glsl_type, 0, "uvec") {
        Some(wrapped(glsl_type, "(0u)"))
    } else if str_occurs_at(glsl_type, 0, "bvec") {
        Some(wrapped(glsl_type, "(false)"))
    } else {
        match table.get(glsl_type) {
            None => None,
            Some(definition) => {
                if fuel == 0 {
                    return None;
                }
                let ghost members = member_models(definition.members@);
                let mut values: Vec<Vec<char>> = Vec::new();
                let mut i: usize = 0;
                assert(members.take(0) =~= Seq::empty());
                assert(texts(values@) =~= Seq::empty());
                while i < definition.members.len()
                    invariant
                        i <= definition.members.len(),
                        fuel > 0,
                        members == member_models(definition.members@),
                        member_defaults(members.take(i as int), table@, (fuel - 1) as nat) == Some(
                            texts(values@),
                        ),
                    decreases definition.members.len() - i,
                {
                    let member = &definition.members[i];
                    let value = match &member.array_specifier {
                        Some(a) => make_default_value(
                            member.glsl_type.as_slice(),
                            Some(a.as_slice()),
                            table,
                            fuel - 1,
                        ),
                        None => make_default_value(
                            member.glsl_type.as_slice(),
                            None,
                            table,
                            fuel - 1,
                        ),
                    };
                    proof {
                        assert(members.take(i + 1).drop_last() =~= members.take(i as int));
                        assert(members.take(i + 1).last() == definition.members@[i as int].model());
                    }
                    match value {
                        None => {
                            proof {
                                lemma_member_defaults_none(
                                    members,
                                    i + 1,
                                    table@,
                                    (fuel - 1) as nat,
                                );
                            }
                            return None;
                        },
                        Some(v) => {
                            let ghost before = texts(values@);
                            values.push(v);
                            assert(texts(values@) =~= before.push(v@));
                        },
                    }
                    i += 1;
                }
                assert(members.take(definition.members.len() as int) =~= members);
                let mut r = copy_chars(glsl_type);
                r.push('(');
                append_chars(&mut r, join_texts(&values, ", ").as_slice());
                r.push(')');
                assert(r@ =~= glsl_type@ + seq!['('] + joined(texts(values@), ", "@) + seq![')']);
                Some(r)
            },
        }
    }
}

/// Makes the default value of an array.
pub fn make_array_initializer(base: &[char], dims: &[usize], table: &StructTable, fuel: usize) -> (r:
    Option<Vec<char>>)
    ensures
        match array_initializer(base@, dims@, table@, fuel as nat) {
            Some(v) => r matches Some(t) && t@ == v,
            None => r is None,
        },
    decreases fuel, 2int, dims.len(),
{
    let n = dims.len();
    if n == 0 {
        return make_scalar_or_struct_default(base, table, fuel);
    }
    let inner = slice_subrange(dims, 0, n - 1);
    assert(inner@ =~= dims@.drop_last());
    match make_array_initializer(base, inner, table, fuel) {
        None => None,
        Some(element) => {
            let last = dims[n - 1];
            let mut r = copy_chars(base);
            append_chars(&mut r, write_dims(inner).as_slice());
            r.push('[');
            append_chars(&mut r, decimal_digits(last).as_slice());
            r.push(']');
            r.push('(');
            append_repeated(&mut r, element.as_slice(), last, ", ");
            r.push(')');
            assert(r@ =~= base@ + dims_text(dims@.drop_last()) + seq!['['] + decimal(
                dims@.last() as nat,
            ) + seq![']', '('] + repeated(element@, dims@.last() as nat, ", "@) + seq![')']);
            Some(r)
        },
    }
}

/// Makes the default value of a type with an optional array specifier.
#[verifier::loop_isolation(false)]
pub fn make_default_value(
    glsl_type: &[char],
    array_specifier: Option<&[char]>,
    table: &StructTable,
    fuel: usize,
) -> (r: Option<Vec<char>>)
    ensures
        match default_value(
            glsl_type@,
            match array_specifier {
                Some(a) => Some(a@),
                None => None,
            },
            table@,
            fuel as nat,
        ) {
            Some(v) => r matches Some(t) && t@ == v,
            None => r is None,
        },
    decreases fuel, 3int, 0int,
{
    match array_specifier {
        Some(a) => {
            let dims = parse_dims(a);
            if dims.len() == 0 {
                return None;
            }
            let mut k: usize = 0;
            while k < dims.len()
                invariant
                    k <= dims.len(),
                    forall|j: int| 0 <= j < k ==> dims@[j] != 0,
                decreases dims.len() - k,
            {
                if dims[k] == 0 {
                    assert(dims@.contains(0usize));
                    return None;
                }
                k += 1;
            }
            assert(!dims@.contains(0usize));
            make_array_initializer(glsl_type, dims.as_slice(), table, fuel)
        },
        None => make_scalar_or_struct_default(glsl_type, table, fuel),
    }
}

} // verus!
