//! Decoding of compact type signatures (`I`, `[[Ljava.lang.Object;`,
//! `(IC)Z`) into the type model.
use vstd::prelude::*;

use crate::ast::{
    brackets, descriptors, is_field_descriptor, is_method_descriptor, type_models, AstError,
    FunctionType, FunctionTypeModel, Type, TypeModel,
};

verus! {

/// Relies on `String::push`: the character is appended at the end.
pub assume_specification[ std::string::String::push ](s: &mut std::string::String, ch: char)
    ensures
        final(s)@ == old(s)@.push(ch),
;

/// The characters of `s`, in order.
fn chars_of(s: &str) -> (r: Vec<char>)
    ensures
        r@ == s@,
{
    let mut r: Vec<char> = Vec::new();
    for c in it: s.chars()
        invariant
            r@ == it.seq().take(it.index() as int),
    {
        r.push(c);
    }
    r
}

/// The primitive type that a single letter stands for.
spec fn primitive_of(c: char) -> Option<TypeModel> {
    if c == 'B' {
        Some(TypeModel::Byte)
    } else if c == 'C' {
        Some(TypeModel::Char)
    } else if c == 'D' {
        Some(TypeModel::Double)
    } else if c == 'F' {
        Some(TypeModel::Float)
    } else if c == 'I' {
        Some(TypeModel::Integer)
    } else if c == 'J' {
        Some(TypeModel::Long)
    } else if c == 'S' {
        Some(TypeModel::Short)
    } else if c == 'Z' {
        Some(TypeModel::Boolean)
    } else {
        None
    }
}

/// The position of the first `;` in `s` at or after `i`.
spec fn semicolon_from(s: Seq<char>, i: int) -> Option<int>
    decreases s.len() - i,
{
    if i < 0 || i >= s.len() {
        None
    } else if s[i] == ';' {
        Some(i)
    } else {
        semicolon_from(s, i + 1)
    }
}

/// Adds `n` dimensions to the type of a decoding result.
spec fn add_dims(r: Option<(TypeModel, int)>, n: nat) -> Option<(TypeModel, int)> {
    match r {
        Some((TypeModel::Array(d, e), j)) => Some((TypeModel::Array(d + n, e), j)),
        Some((t, j)) => Some((TypeModel::Array(n, Box::new(t)), j)),
        None => None,
    }
}

/// Decodes the field type that starts at position `i` of `s`: the type and the
/// position just past it, or `None` where no field type starts there.
spec fn field_at(s: Seq<char>, i: int) -> Option<(TypeModel, int)>
    decreases s.len() - i,
{
    if i < 0 || i >= s.len() {
        None
    } else if s[i] == '[' {
        add_dims(field_at(s, i + 1), 1)
    } else if s[i] == 'L' {
        match semicolon_from(s, i + 1) {
            Some(j) => Some((TypeModel::Class(s.subrange(i + 1, j)), j + 1)),
            None => None,
        }
    } else {
        match primitive_of(s[i]) {
            Some(t) => Some((t, i + 1)),
            None => None,
        }
    }
}

proof fn lemma_add_dims_twice(r: Option<(TypeModel, int)>, a: nat, b: nat)
    ensures
        add_dims(add_dims(r, a), b) == add_dims(r, a + b),
{
}

proof fn lemma_brackets_succ(n: nat)
    ensures
        brackets(n + 1) == seq!['['] + brackets(n),
{
    assert(brackets(n + 1) =~= seq!['['] + brackets(n));
}

proof fn lemma_semicolon_from(s: Seq<char>, i: int)
    requires
        0 <= i,
    ensures
        match semicolon_from(s, i) {
            Some(j) => i <= j < s.len() && s[j] == ';' && forall|k: int|
                i <= k < j ==> s[k] != ';',
            None => forall|k: int| i <= k < s.len() ==> s[k] != ';',
        },
    decreases s.len() - i,
{
    if i < s.len() && s[i] != ';' {
        lemma_semicolon_from(s, i + 1);
    }
}

proof fn lemma_semicolon_at(s: Seq<char>, i: int, j: int)
    requires
        0 <= i <= j < s.len(),
        s[j] == ';',
        forall|k: int| i <= k < j ==> s[k] != ';',
    ensures
        semicolon_from(s, i) == Some(j),
    decreases j - i,
{
    if i < j {
        lemma_semicolon_at(s, i + 1, j);
    }
}

/// Whatever `field_at` decodes is a well-formed type whose signature is the
/// text it consumed.
proof fn lemma_field_at_sound(s: Seq<char>, i: int)
    ensures
        field_at(s, i) matches Some((t, j)) ==> i < j <= s.len() && t.wf()
            && s.subrange(i, j) == t.descriptor(),
    decreases s.len() - i,
{
    if 0 <= i < s.len() {
        if s[i] == '[' {
            lemma_field_at_sound(s, i + 1);
            if let Some((t, j)) = field_at(s, i + 1) {
                match t {
                    TypeModel::Array(d, e) => {
                        lemma_brackets_succ(d);
                        assert(s.subrange(i, j) =~= seq!['['] + s.subrange(i + 1, j));
                        assert(brackets(d + 1) + (*e).descriptor() =~= seq!['['] + (brackets(d)
                            + (*e).descriptor()));
                    },
                    _ => {
                        assert(s.subrange(i, j) =~= brackets(1) + t.descriptor());
                    },
                }
            }
        } else if s[i] == 'L' {
            lemma_semicolon_from(s, i + 1);
            if let Some(j) = semicolon_from(s, i + 1) {
                let name = s.subrange(i + 1, j);
                assert(s.subrange(i, j + 1) =~= seq!['L'] + name + seq![';']);
                assert(!name.contains(';')) by {
                    if name.contains(';') {
                        let k = choose|k: int| 0 <= k < name.len() && name[k] == ';';
                        assert(s[i + 1 + k] == ';');
                    }
                }
            }
        } else if primitive_of(s[i]) is Some {
            assert(s.subrange(i, i + 1) =~= seq![s[i]]);
        }
    }
}

/// Every well-formed type is decoded from its own signature, wherever that
/// signature stands in a longer text.
proof fn lemma_field_at_complete(s: Seq<char>, i: int, t: TypeModel)
    requires
        t.wf(),
        0 <= i,
        i + t.descriptor().len() <= s.len(),
        s.subrange(i, i + t.descriptor().len()) == t.descriptor(),
    ensures
        field_at(s, i) == Some((t, i + t.descriptor().len())),
    decreases t, 0nat,
{
    let n = t.descriptor().len() as int;
    assert(s[i] == t.descriptor()[0]) by {
        assert(s.subrange(i, i + n)[0] == s[i]);
    }
    match t {
        TypeModel::Class(name) => {
            let j = i + 1 + name.len();
            assert forall|k: int| i + 1 <= k < j implies s[k] != ';' by {
                assert(s.subrange(i, i + n)[k - i] == s[k]);
                assert(name[k - i - 1] == s[k]);
            }
            assert(s.subrange(i, i + n)[j - i] == s[j]);
            lemma_semicolon_at(s, i + 1, j);
            assert(s.subrange(i + 1, j) =~= name) by {
                assert forall|k: int| 0 <= k < name.len() implies s.subrange(i + 1, j)[k]
                    == name[k] by {
                    assert(s.subrange(i, i + n)[k + 1] == s[i + 1 + k]);
                }
            }
        },
        TypeModel::Array(d, e) => {
            lemma_brackets_dims(s, i, d, *e);
        },
        _ => {},
    }
}

/// `d` array markers followed by the signature of a non-array type decode to
/// an array of `d` dimensions.
proof fn lemma_brackets_dims(s: Seq<char>, i: int, d: nat, e: TypeModel)
    requires
        d >= 1,
        !(e is Array),
        e.wf(),
        0 <= i,
        i + d + e.descriptor().len() <= s.len(),
        s.subrange(i, i + d + e.descriptor().len()) == brackets(d) + e.descriptor(),
    ensures
        field_at(s, i) == Some((TypeModel::Array(d, Box::new(e)), i + d + e.descriptor().len())),
    decreases e, d,
{
    let n = d + e.descriptor().len();
    assert(s[i] == '[') by {
        assert(s.subrange(i, i + n)[0] == s[i]);
    }
    if d == 1 {
        assert(s.subrange(i + 1, i + n) =~= e.descriptor()) by {
            assert forall|k: int| 0 <= k < e.descriptor().len() implies s.subrange(
                i + 1,
                i + n,
            )[k] == e.descriptor()[k] by {
                assert(s.subrange(i, i + n)[k + 1] == s[i + 1 + k]);
            }
        }
        lemma_field_at_complete(s, i + 1, e);
    } else {
        let dd = (d - 1) as nat;
        assert(s.subrange(i + 1, i + n) =~= brackets(dd) + e.descriptor()) by {
            assert forall|k: int| 0 <= k < n - 1 implies s.subrange(i + 1, i + n)[k] == (
            brackets(dd) + e.descriptor())[k] by {
                assert(s.subrange(i, i + n)[k + 1] == s[i + 1 + k]);
            }
        }
        lemma_brackets_dims(s, i + 1, dd, e);
    }
}

/// A signature names at most one well-formed type, so decoding a signature
/// twice gives the same type, and every well-formed type decodes from its own
/// signature.
pub proof fn descriptor_determines_type(t1: TypeModel, t2: TypeModel)
    requires
        t1.wf(),
        t2.wf(),
        t1.descriptor() == t2.descriptor(),
    ensures
        t1 == t2,
        is_field_descriptor(t1.descriptor()),
{
    let s = t1.descriptor();
    assert(s.subrange(0, s.len() as int) =~= s);
    lemma_field_at_complete(s, 0, t1);
    lemma_field_at_complete(s, 0, t2);
}

/// `n` array markers followed by the signature of a non-array type `e` are the
/// signature of the array of `n` dimensions over `e`, and of no other type.
pub proof fn array_of_dims(n: nat, e: TypeModel, t: TypeModel)
    requires
        n >= 1,
        e.wf(),
        !(e is Array),
        t.wf(),
        t.descriptor() == brackets(n) + e.descriptor(),
    ensures
        t == TypeModel::Array(n, Box::new(e)),
{
    let a = TypeModel::Array(n, Box::new(e));
    descriptor_determines_type(t, a);
}

/// One more array marker in front of the signature of an array of `n`
/// dimensions gives an array of `n + 1` dimensions over the same element, not
/// an array of arrays.
pub proof fn array_marker_adds_dim(n: nat, e: TypeModel, t: TypeModel)
    requires
        n >= 1,
        e.wf(),
        !(e is Array),
        t.wf(),
        t.descriptor() == seq!['['] + TypeModel::Array(n, Box::new(e)).descriptor(),
    ensures
        t == TypeModel::Array(n + 1, Box::new(e)),
{
    lemma_brackets_succ(n);
    assert(seq!['['] + (brackets(n) + e.descriptor()) =~= brackets(n + 1) + e.descriptor());
    array_of_dims(n + 1, e, t);
}

/// A method signature names at most one well-formed method type, so decoding
/// it twice gives the same argument and return types.
pub proof fn descriptor_determines_function_type(f1: FunctionTypeModel, f2: FunctionTypeModel)
    requires
        f1.wf(),
        f2.wf(),
        f1.descriptor() == f2.descriptor(),
    ensures
        f1 == f2,
{
    let r1 = match f1.ret {
        Some(t) => t.descriptor(),
        None => seq!['V'],
    };
    let r2 = match f2.ret {
        Some(t) => t.descriptor(),
        None => seq!['V'],
    };
    lemma_split_unique(descriptors(f1.args), r1, descriptors(f2.args), r2);
    let d = descriptors(f1.args);
    assert(d.subrange(0, d.len() as int) =~= d);
    lemma_fields_at_complete(d, 0, f1.args);
    lemma_fields_at_complete(d, 0, f2.args);
    lemma_not_field_descriptor(seq!['V']);
    assert(field_at(seq!['V'], 0) is None);
    match (f1.ret, f2.ret) {
        (Some(t1), Some(t2)) => descriptor_determines_type(t1, t2),
        (Some(t1), None) => assert(is_field_descriptor(t1.descriptor())),
        (None, Some(t2)) => assert(is_field_descriptor(t2.descriptor())),
        (None, None) => {},
    }
}

/// A cursor over the characters of a signature; errors report `type_str`.
struct DescriptorParser<'a> {
    type_str: &'a str,
    chars: Vec<char>,
    pos: usize,
}

/// The error for a malformed signature, carrying the whole signature.
fn type_error<T>(type_str: &str) -> (r: Result<T, AstError>)
    ensures
        r matches Err(e) && e.is_illegal_type_string(type_str@),
{
    Err(AstError::IllegalTypeString(type_str.to_owned()))
}

impl<'a> DescriptorParser<'a> {
    fn new(type_str: &'a str) -> (p: DescriptorParser<'a>)
        ensures
            p.type_str == type_str,
            p.chars@ == type_str@,
            p.pos == 0,
    {
        DescriptorParser { type_str, chars: chars_of(type_str), pos: 0 }
    }

    fn eof(&self) -> (r: bool)
        ensures
            r == (self.pos >= self.chars@.len()),
    {
        self.pos >= self.chars.len()
    }

    /// Decodes the field type at the cursor; `None` at the end of the text.
    fn parse_field_type(&mut self) -> (r: Result<Option<Type>, AstError>)
        requires
            old(self).pos <= old(self).chars@.len(),
        ensures
            final(self).type_str == old(self).type_str,
            final(self).chars@ == old(self).chars@,
            final(self).pos <= final(self).chars@.len(),
            old(self).pos == old(self).chars@.len() ==> (r matches Ok(None) && final(self).pos
                == old(self).pos),
            old(self).pos < old(self).chars@.len() ==> match field_at(
                old(self).chars@,
                old(self).pos as int,
            ) {
                Some((t, j)) => r matches Ok(Some(ty)) && ty@ == t && final(self).pos == j,
                None => r matches Err(e) && e.is_illegal_type_string(old(self).type_str@),
            },
        decreases old(self).chars@.len() - old(self).pos, 1nat,
    {
        if self.pos >= self.chars.len() {
            return Ok(None);
        }
        let c = self.chars[self.pos];
        self.pos = self.pos + 1;
        match c {
            'B' => Ok(Some(Type::Byte)),
            'C' => Ok(Some(Type::Char)),
            'D' => Ok(Some(Type::Double)),
            'F' => Ok(Some(Type::Float)),
            'I' => Ok(Some(Type::Integer)),
            'J' => Ok(Some(Type::Long)),
            'S' => Ok(Some(Type::Short)),
            'Z' => Ok(Some(Type::Boolean)),
            '[' => self.parse_array(),
            'L' => self.parse_class(),
            _ => type_error(self.type_str),
        }
    }

    /// Decodes an array type whose first `[` was just consumed.
    fn parse_array(&mut self) -> (r: Result<Option<Type>, AstError>)
        requires
            1 <= old(self).pos <= old(self).chars@.len(),
            old(self).chars@[old(self).pos - 1] == '[',
        ensures
            final(self).type_str == old(self).type_str,
            final(self).chars@ == old(self).chars@,
            final(self).pos <= final(self).chars@.len(),
            match field_at(old(self).chars@, old(self).pos - 1) {
                Some((t, j)) => r matches Ok(Some(ty)) && ty@ == t && final(self).pos == j,
                None => r matches Err(e) && e.is_illegal_type_string(old(self).type_str@),
            },
        decreases old(self).chars@.len() - old(self).pos, 2nat,
    {
        let ghost s = self.chars@;
        let ghost start = self.pos - 1;
        let mut dim: usize = 1;
        while self.pos < self.chars.len() && self.chars[self.pos] == '['
            invariant
                self.type_str == old(self).type_str,
                self.chars@ == s,
                s == old(self).chars@,
                start == old(self).pos - 1,
                0 <= start < self.pos <= s.len(),
                dim == self.pos - start,
                field_at(s, start) == add_dims(field_at(s, self.pos as int), dim as nat),
            decreases s.len() - self.pos,
        {
            proof {
                lemma_add_dims_twice(field_at(s, self.pos + 1), 1, dim as nat);
            }
            dim = dim + 1;
            self.pos = self.pos + 1;
        }
        let ty = match self.parse_field_type() {
            Ok(ty) => ty,
            Err(e) => return Err(e),
        };
        match ty {
            Some(ty) => Ok(Some(Type::Array(dim, Box::new(ty)))),
            None => type_error(self.type_str),
        }
    }

    /// Decodes a class type whose `L` was just consumed: the name runs up to
    /// the next `;`.
    fn parse_class(&mut self) -> (r: Result<Option<Type>, AstError>)
        requires
            1 <= old(self).pos <= old(self).chars@.len(),
            old(self).chars@[old(self).pos - 1] == 'L',
        ensures
            final(self).type_str == old(self).type_str,
            final(self).chars@ == old(self).chars@,
            final(self).pos <= final(self).chars@.len(),
            match field_at(old(self).chars@, old(self).pos - 1) {
                Some((t, j)) => r matches Ok(Some(ty)) && ty@ == t && final(self).pos == j,
                None => r matches Err(e) && e.is_illegal_type_string(old(self).type_str@),
            },
    {
        let ghost s = self.chars@;
        let ghost first = self.pos as int;
        let mut class_name = String::new();
        while self.pos < self.chars.len()
            invariant
                self.type_str == old(self).type_str,
                self.chars@ == s,
                s == old(self).chars@,
                first == old(self).pos,
                1 <= first <= self.pos <= s.len(),
                s[first - 1] == 'L',
                class_name@ == s.subrange(first, self.pos as int),
                forall|k: int| first <= k < self.pos ==> s[k] != ';',
            decreases s.len() - self.pos,
        {
            let ch = self.chars[self.pos];
            self.pos = self.pos + 1;
            if ch == ';' {
                proof {
                    lemma_semicolon_at(s, first, self.pos - 1);
                }
                return Ok(Some(Type::Class(class_name)));
            }
            class_name.push(ch);
            assert(class_name@ =~= s.subrange(first, self.pos as int));
        }
        proof {
            lemma_semicolon_from(s, first);
        }
        type_error(self.type_str)
    }
}

impl Type {
    /// Decodes a signature that must consist of exactly one field type.
    pub fn parse(type_str: &str) -> (r: Result<Type, AstError>)
        ensures
            match r {
                Ok(t) => t@.wf() && t@.descriptor() == type_str@,
                Err(e) => e.is_illegal_type_string(type_str@) && !is_field_descriptor(type_str@),
            },
    {
        let ghost s = type_str@;
        let mut p = DescriptorParser::new(type_str);
        let ty = match p.parse_field_type() {
            Ok(ty) => ty,
            Err(e) => {
                proof {
                    lemma_not_field_descriptor(s);
                }
                return Err(e);
            },
        };
        if ty.is_none() || !p.eof() {
            proof {
                lemma_not_field_descriptor(s);
            }
            type_error(type_str)
        } else {
            proof {
                lemma_field_at_sound(s, 0);
                assert(s.subrange(0, s.len() as int) =~= s);
            }
            Ok(ty.unwrap())
        }
    }
}

/// A field signature decodes, from its start, to a type that uses all of it.
proof fn lemma_not_field_descriptor(s: Seq<char>)
    ensures
        is_field_descriptor(s) ==> (field_at(s, 0) matches Some((t, j)) && j == s.len()),
{
    if is_field_descriptor(s) {
        let t = choose|t: TypeModel| t.wf() && t.descriptor() == s;
        assert(s.subrange(0, s.len() as int) =~= s);
        lemma_field_at_complete(s, 0, t);
    }
}

/// Decodes the field types from position `i` to the end of `s`, one after the
/// other.
spec fn fields_at(s: Seq<char>, i: int) -> Option<Seq<TypeModel>>
    decreases s.len() - i,
{
    if i < 0 {
        None
    } else if i >= s.len() {
        Some(Seq::empty())
    } else {
        match field_at(s, i) {
            Some((t, j)) => if i < j <= s.len() {
                match fields_at(s, j) {
                    Some(ts) => Some(seq![t] + ts),
                    None => None,
                }
            } else {
                None
            },
            None => None,
        }
    }
}

proof fn lemma_fields_at_sound(s: Seq<char>, i: int)
    requires
        0 <= i <= s.len(),
    ensures
        fields_at(s, i) matches Some(ts) ==> (forall|k: int| 0 <= k < ts.len() ==> (#[trigger] ts[k]).wf())
            && descriptors(ts) == s.subrange(i, s.len() as int),
    decreases s.len() - i,
{
    if i < s.len() {
        lemma_field_at_sound(s, i);
        if let Some((t, j)) = field_at(s, i) {
            lemma_fields_at_sound(s, j);
            if let Some(rest) = fields_at(s, j) {
                let ts = seq![t] + rest;
                assert(ts.drop_first() =~= rest);
                assert(s.subrange(i, s.len() as int) =~= s.subrange(i, j) + s.subrange(j, s.len() as int));
                assert forall|k: int| 0 <= k < ts.len() implies (#[trigger] ts[k]).wf() by {
                    if k > 0 {
                        assert(ts[k] == rest[k - 1]);
                    }
                }
            }
        }
    } else {
        assert(s.subrange(i, s.len() as int) =~= Seq::<char>::empty());
    }
}

proof fn lemma_fields_at_complete(s: Seq<char>, i: int, ts: Seq<TypeModel>)
    requires
        0 <= i <= s.len(),
        forall|k: int| 0 <= k < ts.len() ==> (#[trigger] ts[k]).wf(),
        s.subrange(i, s.len() as int) == descriptors(ts),
    ensures
        fields_at(s, i) == Some(ts),
    decreases ts.len(),
{
    if ts.len() == 0 {
        assert(ts =~= Seq::<TypeModel>::empty());
    } else {
        let t = ts[0];
        let n = t.descriptor().len() as int;
        let d = descriptors(ts);
        assert(t.wf());
        assert(d == t.descriptor() + descriptors(ts.drop_first()));
        assert(s.subrange(i, i + n) =~= t.descriptor()) by {
            assert forall|k: int| 0 <= k < n implies s.subrange(i, i + n)[k] == t.descriptor()[k] by {
                assert(s.subrange(i, s.len() as int)[k] == d[k]);
            }
        }
        lemma_field_at_complete(s, i, t);
        lemma_field_at_sound(s, i);
        let rest = ts.drop_first();
        assert(s.subrange(i + n, s.len() as int) =~= descriptors(rest)) by {
            assert forall|k: int| 0 <= k < s.len() - i - n implies s.subrange(i + n, s.len() as int)[k]
                == descriptors(rest)[k] by {
                assert(s.subrange(i, s.len() as int)[k + n] == d[k + n]);
            }
        }
        assert forall|k: int| 0 <= k < rest.len() implies (#[trigger] rest[k]).wf() by {
            assert(rest[k] == ts[k + 1]);
        }
        lemma_fields_at_complete(s, i + n, rest);
        assert(seq![t] + rest =~= ts);
    }
}

/// A text has at most one way of being written as `(`, a part without `)`,
/// `)` and a rest.
proof fn lemma_split_unique(a1: Seq<char>, r1: Seq<char>, a2: Seq<char>, r2: Seq<char>)
    requires
        seq!['('] + a1 + seq![')'] + r1 == seq!['('] + a2 + seq![')'] + r2,
        !a1.contains(')'),
        !a2.contains(')'),
    ensures
        a1 == a2,
        r1 == r2,
{
    let s = seq!['('] + a1 + seq![')'] + r1;
    let s2 = seq!['('] + a2 + seq![')'] + r2;
    if a1.len() < a2.len() {
        assert(s[1 + a1.len() as int] == ')');
        assert(s2[1 + a1.len() as int] == a2[a1.len() as int]);
    } else if a2.len() < a1.len() {
        assert(s2[1 + a2.len() as int] == ')');
        assert(s[1 + a2.len() as int] == a1[a2.len() as int]);
    }
    assert(a1 =~= s.subrange(1, 1 + a1.len() as int));
    assert(a2 =~= s2.subrange(1, 1 + a2.len() as int));
    assert(r1 =~= s.subrange(2 + a1.len() as int, s.len() as int));
    assert(r2 =~= s2.subrange(2 + a2.len() as int, s2.len() as int));
}

/// When a method signature is written as `(`, `a` without `)`, `)` and `r`,
/// then `a` decodes as a list of field types and `r` is `V` or a field
/// signature.
proof fn lemma_method_parts(s: Seq<char>, a: Seq<char>, r: Seq<char>)
    requires
        is_method_descriptor(s),
        s == seq!['('] + a + seq![')'] + r,
        !a.contains(')'),
    ensures
        fields_at(a, 0) is Some,
        r.len() > 0,
        r != seq!['V'] ==> is_field_descriptor(r),
{
    let f = choose|f: FunctionTypeModel| f.wf() && f.descriptor() == s;
    let rd = match f.ret {
        Some(t) => t.descriptor(),
        None => seq!['V'],
    };
    assert(f.descriptor() == seq!['('] + descriptors(f.args) + seq![')'] + rd);
    lemma_split_unique(a, r, descriptors(f.args), rd);
    assert(a.subrange(0, a.len() as int) =~= a);
    lemma_fields_at_complete(a, 0, f.args);
    if let Some(t) = f.ret {
        lemma_not_field_descriptor(Seq::empty());
        assert(t.descriptor().len() > 0) by {
            if t.descriptor().len() == 0 {
                assert(t.descriptor() =~= Seq::<char>::empty());
            }
        }
    }
}

/// The first position of `c` in `v`.
fn find_char(v: &Vec<char>, c: char) -> (r: Option<usize>)
    ensures
        match r {
            Some(i) => i < v@.len() && v@[i as int] == c && forall|k: int| 0 <= k < i ==> v@[k] != c,
            None => !v@.contains(c),
        },
{
    let mut i: usize = 0;
    while i < v.len()
        invariant
            i <= v@.len(),
            forall|k: int| 0 <= k < i ==> v@[k] != c,
        decreases v@.len() - i,
    {
        if v[i] == c {
            return Some(i);
        }
        i = i + 1;
    }
    None
}

/// Splits a method signature into the text of its argument list and the text
/// of its return type. The signature must open with `(`; the argument list
/// ends at the first `)`.
fn split_method_descriptor(desc: &str) -> (r: Result<(&str, &str), AstError>)
    ensures
        match r {
            Ok((args, ret)) => desc@ == seq!['('] + args@ + seq![')'] + ret@ && !args@.contains(')'),
            Err(e) => e.is_illegal_type_string(desc@) && !(desc@.len() > 0 && desc@[0] == '('
                && desc@.contains(')')),
        },
{
    let chars = chars_of(desc);
    if chars.len() == 0 || chars[0] != '(' {
        return type_error(desc);
    }
    match find_char(&chars, ')') {
        Some(end) => {
            let args = desc.substring_char(1, end);
            let ret = desc.substring_char(end + 1, chars.len());
            proof {
                assert(desc@ =~= seq!['('] + args@ + seq![')'] + ret@);
                assert(!args@.contains(')')) by {
                    if args@.contains(')') {
                        let k = choose|k: int| 0 <= k < args@.len() && args@[k] == ')';
                        assert(desc@[k + 1] == ')');
                    }
                }
            }
            Ok((args, ret))
        },
        None => type_error(desc),
    }
}

impl FunctionType {
    /// Decodes a method signature `(<arguments>)<return>`.
    pub fn parse(type_str: &str) -> (r: Result<FunctionType, AstError>)
        ensures
            match r {
                Ok(f) => f@.wf() && f@.descriptor() == type_str@,
                Err(e) => e.is_illegal_type_string(type_str@) && !is_method_descriptor(type_str@),
            },
    {
        let ghost s = type_str@;
        let (args, ret) = match split_method_descriptor(type_str) {
            Ok(parts) => parts,
            Err(e) => {
                proof {
                    if is_method_descriptor(s) {
                        let f = choose|f: FunctionTypeModel| f.wf() && f.descriptor() == s;
                        assert(s[0] == '(');
                        assert(s[1 + descriptors(f.args).len() as int] == ')');
                    }
                }
                return Err(e);
            },
        };
        let ghost a = args@;
        let mut args_parser = DescriptorParser::new(args);
        let mut arg_types: Vec<Type> = Vec::new();
        loop
            invariant_except_break
                s == type_str@,
                s == seq!['('] + a + seq![')'] + ret@,
                !a.contains(')'),
                args_parser.chars@ == a,
                args_parser.pos <= a.len(),
                fields_at(a, 0) == match fields_at(a, args_parser.pos as int) {
                    Some(rest) => Some(type_models(arg_types@) + rest),
                    None => None,
                },
            ensures
                s == type_str@,
                s == seq!['('] + a + seq![')'] + ret@,
                !a.contains(')'),
                fields_at(a, 0) == Some(type_models(arg_types@)),
            decreases a.len() - args_parser.pos,
        {
            let ghost pos = args_parser.pos as int;
            proof {
                lemma_field_at_sound(a, pos);
            }
            match args_parser.parse_field_type() {
                Ok(Some(arg_ty)) => {
                    proof {
                        let rest = fields_at(a, args_parser.pos as int);
                        if let Some(rest) = rest {
                            assert(type_models(arg_types@.push(arg_ty)) + rest =~= type_models(
                                arg_types@,
                            ) + (seq![arg_ty@] + rest));
                        }
                    }
                    arg_types.push(arg_ty);
                },
                Ok(None) => {
                    assert(type_models(arg_types@) + Seq::empty() =~= type_models(arg_types@));
                    break ;
                },
                Err(_) => {
                    proof {
                        if is_method_descriptor(s) {
                            lemma_method_parts(s, a, ret@);
                        }
                    }
                    return type_error(type_str);
                },
            }
        }
        if ret.is_empty() {
            proof {
                if is_method_descriptor(s) {
                    lemma_method_parts(s, a, ret@);
                }
            }
            return type_error(type_str);
        }
        let ret_ty = if ret.unicode_len() == 1 && ret.get_char(0) == 'V' {
            proof {
                assert(ret@ =~= seq!['V']);
            }
            None
        } else {
            match Type::parse(ret) {
                Ok(t) => Some(t),
                Err(_) => {
                    proof {
                        if is_method_descriptor(s) {
                            lemma_method_parts(s, a, ret@);
                            if ret@ == seq!['V'] {
                                assert(ret@.len() == 1 && ret@[0] == 'V');
                            }
                        }
                    }
                    return type_error(type_str);
                },
            }
        };
        proof {
            lemma_fields_at_sound(a, 0);
            assert(a.subrange(0, a.len() as int) =~= a);
        }
        Ok(FunctionType { args: arg_types, ret: ret_ty })
    }
}

} // verus!
