//! The type, method and class model shared by the descriptor parser and the
//! interpreter.
use vstd::prelude::*;

verus! {

/// Errors raised while building types, methods and classes.
#[derive(Debug, PartialEq)]
pub enum AstError {
    IllegalMethodName(String),
    IllegalClassName(String),
    IllegalTypeString(String),
}

impl AstError {
    /// The error reports the malformed signature `s`.
    pub open spec fn is_illegal_type_string(self, s: Seq<char>) -> bool {
        self matches AstError::IllegalTypeString(m) && m@ == s
    }
}

/// A field type: a primitive, a named class, or an array of some dimension.
#[derive(Debug, PartialEq)]
pub enum Type {
    Boolean,
    Byte,
    Short,
    Char,
    Integer,
    Long,
    Float,
    Double,
    Class(String),
    Array(usize, Box<Type>),
}

/// The mathematical value of a `Type`: the class name as a sequence of
/// characters and the dimension count as a natural number.
pub enum TypeModel {
    Boolean,
    Byte,
    Short,
    Char,
    Integer,
    Long,
    Float,
    Double,
    Class(Seq<char>),
    Array(nat, Box<TypeModel>),
}

impl View for Type {
    type V = TypeModel;

    open spec fn view(&self) -> TypeModel
        decreases self,
    {
        match self {
            Type::Boolean => TypeModel::Boolean,
            Type::Byte => TypeModel::Byte,
            Type::Short => TypeModel::Short,
            Type::Char => TypeModel::Char,
            Type::Integer => TypeModel::Integer,
            Type::Long => TypeModel::Long,
            Type::Float => TypeModel::Float,
            Type::Double => TypeModel::Double,
            Type::Class(name) => TypeModel::Class(name@),
            Type::Array(dim, elem) => TypeModel::Array(*dim as nat, Box::new((**elem).view())),
        }
    }
}

/// `n` array markers.
pub open spec fn brackets(n: nat) -> Seq<char> {
    Seq::new(n, |i: int| '[')
}

impl TypeModel {
    /// A well-formed type: an array has at least one dimension and an element
    /// that is not itself an array; a class name holds no `;`.
    pub open spec fn wf(self) -> bool
        decreases self,
    {
        match self {
            TypeModel::Class(name) => !name.contains(';'),
            TypeModel::Array(dim, elem) => dim >= 1 && !(*elem is Array) && (*elem).wf(),
            _ => true,
        }
    }

    pub open spec fn is_primitive(self) -> bool {
        !(self is Class) && !(self is Array)
    }

    /// The compact signature string of a type.
    pub open spec fn descriptor(self) -> Seq<char>
        decreases self,
    {
        match self {
            TypeModel::Boolean => seq!['Z'],
            TypeModel::Byte => seq!['B'],
            TypeModel::Short => seq!['S'],
            TypeModel::Char => seq!['C'],
            TypeModel::Integer => seq!['I'],
            TypeModel::Long => seq!['J'],
            TypeModel::Float => seq!['F'],
            TypeModel::Double => seq!['D'],
            TypeModel::Class(name) => seq!['L'] + name + seq![';'],
            TypeModel::Array(dim, elem) => brackets(dim) + (*elem).descriptor(),
        }
    }
}

/// The string `s` is the signature of exactly one well-formed type.
pub open spec fn is_field_descriptor(s: Seq<char>) -> bool {
    exists|t: TypeModel| t.wf() && t.descriptor() == s
}

/// The signature of a method: its argument types and its return type, `None`
/// for a method that returns nothing.
#[derive(Debug, PartialEq, Clone)]
pub struct FunctionType {
    pub ret: Option<Type>,
    pub args: Vec<Type>,
}

/// The mathematical value of a `FunctionType`.
pub struct FunctionTypeModel {
    pub args: Seq<TypeModel>,
    pub ret: Option<TypeModel>,
}

/// The models of a sequence of types.
pub open spec fn type_models(ts: Seq<Type>) -> Seq<TypeModel> {
    ts.map_values(|t: Type| t@)
}

impl View for FunctionType {
    type V = FunctionTypeModel;

    open spec fn view(&self) -> FunctionTypeModel {
        FunctionTypeModel {
            args: type_models(self.args@),
            ret: match self.ret {
                Some(t) => Some(t@),
                None => None,
            },
        }
    }
}

/// The signatures of a list of types, one after the other.
pub open spec fn descriptors(ts: Seq<TypeModel>) -> Seq<char>
    decreases ts.len(),
{
    if ts.len() == 0 {
        Seq::empty()
    } else {
        ts[0].descriptor() + descriptors(ts.drop_first())
    }
}

impl FunctionTypeModel {
    /// Every type in it is well formed, and the argument signatures hold no
    /// `)`, so that the first `)` of a method signature closes its argument
    /// list.
    pub open spec fn wf(self) -> bool {
        &&& forall|i: int| 0 <= i < self.args.len() ==> (#[trigger] self.args[i]).wf()
        &&& !descriptors(self.args).contains(')')
        &&& self.ret matches Some(t) ==> t.wf()
    }

    /// The method signature `(<arguments>)<return>`, where `V` stands for no
    /// return value.
    pub open spec fn descriptor(self) -> Seq<char> {
        seq!['('] + descriptors(self.args) + seq![')'] + match self.ret {
            Some(t) => t.descriptor(),
            None => seq!['V'],
        }
    }
}

/// The string `s` is the signature of exactly one well-formed method type.
pub open spec fn is_method_descriptor(s: Seq<char>) -> bool {
    exists|f: FunctionTypeModel| f.wf() && f.descriptor() == s
}

impl Default for FunctionType {
    fn default() -> (r: FunctionType)
        ensures
            r@.args.len() == 0,
            r@.ret is None,
    {
        FunctionType { ret: None, args: Vec::new() }
    }
}

impl Clone for Type {
    fn clone(&self) -> (r: Type)
        ensures
            r@ == self@,
        decreases self,
    {
        match self {
            Type::Boolean => Type::Boolean,
            Type::Byte => Type::Byte,
            Type::Short => Type::Short,
            Type::Char => Type::Char,
            Type::Integer => Type::Integer,
            Type::Long => Type::Long,
            Type::Float => Type::Float,
            Type::Double => Type::Double,
            Type::Class(name) => Type::Class(name.clone()),
            Type::Array(dim, elem) => Type::Array(*dim, Box::new((**elem).clone())),
        }
    }
}

impl Type {
    /// Whether the type is one of the eight primitive kinds.
    pub fn is_primitive(&self) -> (r: bool)
        ensures
            r == self@.is_primitive(),
    {
        match self {
            Type::Class(_) | Type::Array(_, _) => false,
            _ => true,
        }
    }
}

/// The instructions of the machine.
#[allow(non_camel_case_types)]
#[derive(Debug, Copy, Clone)]
pub enum OpCode {
    /// Pushes local slot 0.
    iload_0,
    /// Pushes local slot 1.
    iload_1,
    /// Pushes local slot 2.
    iload_2,
    /// Pops two integers and pushes their wrapping sum.
    iadd,
    /// Pops an integer and returns it from the method.
    ireturn,
}

/// A method: its name, its type, whether it is static, how many local slots it
/// declares beyond its arguments, and its instructions.
#[derive(Debug)]
pub struct Method {
    pub name: String,
    pub ty: FunctionType,
    pub statik: bool,
    pub locals: usize,
    pub code: Vec<OpCode>,
}

impl Default for Method {
    fn default() -> (r: Method)
        ensures
            r.name@.len() == 0,
            r.ty@.args.len() == 0,
            r.ty@.ret is None,
            !r.statik,
            r.locals == 0,
            r.code@.len() == 0,
    {
        Method {
            name: String::new(),
            ty: FunctionType::default(),
            statik: false,
            locals: 0,
            code: Vec::new(),
        }
    }
}

/// A constant of a class's constant pool. Floating-point constants are held as
/// their IEEE 754 bit patterns.
#[derive(Debug)]
pub enum ConstValue {
    Int(i32),
    Long(i64),
    Float(u32),
    Double(u64),
    String(String),
}

/// The constants of a class.
#[derive(Debug)]
pub struct ConstantPool(Vec<ConstValue>);

impl ConstantPool {
    /// The constants, in order.
    pub closed spec fn constants(&self) -> Seq<ConstValue> {
        self.0@
    }
}

impl Default for ConstantPool {
    fn default() -> (r: ConstantPool)
        ensures
            r.constants().len() == 0,
    {
        ConstantPool(Vec::new())
    }
}

/// Gathers the parts of a method, then checks them in `create_method`. After
/// the first error the builder keeps it and ignores further settings.
#[derive(Debug)]
pub struct MethodBuilder {
    method: Method,
    error: Option<AstError>,
}

impl Default for MethodBuilder {
    fn default() -> (r: MethodBuilder)
        ensures
            r.error() is None,
            r.method().name@.len() == 0,
            r.method().ty@.args.len() == 0,
            r.method().ty@.ret is None,
            !r.method().statik,
            r.method().locals == 0,
            r.method().code@.len() == 0,
    {
        MethodBuilder { method: Method::default(), error: None }
    }
}

impl MethodBuilder {
    /// The method gathered so far.
    pub closed spec fn method(&self) -> Method {
        self.method
    }

    /// The first error met, if any.
    pub closed spec fn error(&self) -> Option<AstError> {
        self.error
    }

    pub fn set_name(self, name: String) -> (r: MethodBuilder)
        ensures
            r.error() == self.error(),
            r.method().name == if self.error() is None {
                name
            } else {
                self.method().name
            },
            r.method().ty == self.method().ty,
            r.method().statik == self.method().statik,
            r.method().locals == self.method().locals,
            r.method().code == self.method().code,
    {
        let mut b = self;
        if b.error.is_none() {
            b.method.name = name;
        }
        b
    }

    /// Sets the method's type from its signature; a malformed signature
    /// becomes the builder's error.
    pub fn set_type(self, type_str: &str) -> (r: MethodBuilder)
        ensures
            r.method().name == self.method().name,
            r.method().statik == self.method().statik,
            r.method().locals == self.method().locals,
            r.method().code == self.method().code,
            self.error() is Some ==> r.error() == self.error() && r.method().ty == self.method().ty,
            self.error() is None && is_method_descriptor(type_str@) ==> r.error() is None
                && r.method().ty@.wf() && r.method().ty@.descriptor() == type_str@,
            self.error() is None && !is_method_descriptor(type_str@) ==> (r.error() matches Some(e)
                && e.is_illegal_type_string(type_str@)) && r.method().ty == self.method().ty,
    {
        let mut b = self;
        if b.error.is_none() {
            let ty = FunctionType::parse(type_str);
            match ty {
                Ok(ty) => {
                    b.method.ty = ty;
                },
                Err(e) => {
                    b.error = Some(e);
                },
            }
        }
        b
    }

    pub fn set_static(self, statik: bool) -> (r: MethodBuilder)
        ensures
            r.error() == self.error(),
            r.method().name == self.method().name,
            r.method().ty == self.method().ty,
            r.method().statik == if self.error() is None {
                statik
            } else {
                self.method().statik
            },
            r.method().locals == self.method().locals,
            r.method().code == self.method().code,
    {
        let mut b = self;
        if b.error.is_none() {
            b.method.statik = statik;
        }
        b
    }

    pub fn set_locals(self, locals: usize) -> (r: MethodBuilder)
        ensures
            r.error() == self.error(),
            r.method().name == self.method().name,
            r.method().ty == self.method().ty,
            r.method().statik == self.method().statik,
            r.method().locals == if self.error() is None {
                locals
            } else {
                self.method().locals
            },
            r.method().code == self.method().code,
    {
        let mut b = self;
        if b.error.is_none() {
            b.method.locals = locals;
        }
        b
    }

    /// Appends an instruction to the method's code.
    pub fn append_op(self, op: OpCode) -> (r: MethodBuilder)
        ensures
            r.error() == self.error(),
            r.method().name == self.method().name,
            r.method().ty == self.method().ty,
            r.method().statik == self.method().statik,
            r.method().locals == self.method().locals,
            r.method().code@ == if self.error() is None {
                self.method().code@.push(op)
            } else {
                self.method().code@
            },
    {
        let mut b = self;
        if b.error.is_none() {
            b.method.code.push(op);
        }
        b
    }

    /// What `create_method` gives: the first error met; else an error if the
    /// name is empty; else the method.
    pub open spec fn outcome(&self) -> Result<Method, AstError> {
        match self.error() {
            Some(e) => Err(e),
            None => if self.method().name@.len() == 0 {
                Err(AstError::IllegalMethodName(self.method().name))
            } else {
                Ok(self.method())
            },
        }
    }

    /// The method, unless an error was met or its name is empty.
    pub fn create_method(self) -> (r: Result<Method, AstError>)
        ensures
            r == self.outcome(),
    {
        if let Some(err) = self.error {
            return Err(err);
        }
        if !is_valid_id(self.method.name.as_str()) {
            return Err(AstError::IllegalMethodName(self.method.name));
        }
        Ok(self.method)
    }
}

/// A class: its name, its constants and its methods, at most one per name.
#[derive(Debug)]
pub struct Class {
    pub name: String,
    constant_pool: ConstantPool,
    methods: Vec<Method>,
}

impl Default for Class {
    fn default() -> (r: Class)
        ensures
            r.spec_name()@.len() == 0,
            r.methods().len() == 0,
            r.wf(),
    {
        Class { name: String::new(), constant_pool: ConstantPool::default(), methods: Vec::new() }
    }
}

impl Class {
    /// The class's name.
    pub closed spec fn spec_name(&self) -> String {
        self.name
    }

    /// The methods, in the order they were first added.
    pub closed spec fn methods(&self) -> Seq<Method> {
        self.methods@
    }

    /// No two methods share a name.
    pub open spec fn wf(&self) -> bool {
        forall|i: int, j: int|
            0 <= i < j < self.methods().len() ==> #[trigger] self.methods()[i].name@
                != #[trigger] self.methods()[j].name@
    }

    /// The method called `name`, if there is one.
    pub open spec fn method_named(&self, name: Seq<char>) -> Option<Method> {
        if exists|i: int| 0 <= i < self.methods().len() && #[trigger] self.methods()[i].name@ == name {
            Some(
                self.methods()[choose|i: int|
                    0 <= i < self.methods().len() && #[trigger] self.methods()[i].name@ == name],
            )
        } else {
            None
        }
    }

    /// Looks a method up by name.
    pub fn get_method(&self, name: &str) -> (r: Option<&Method>)
        requires
            self.wf(),
        ensures
            match r {
                Some(m) => self.method_named(name@) == Some(*m),
                None => self.method_named(name@) is None,
            },
    {
        let key = name.to_owned();
        match find_method(&self.methods, &key) {
            Some(i) => {
                proof {
                    let j = choose|j: int|
                        0 <= j < self.methods().len() && #[trigger] self.methods()[j].name@ == name@;
                    if i != j {
                        if i < j {
                            assert(self.methods()[i as int].name@ != self.methods()[j].name@);
                        } else {
                            assert(self.methods()[j].name@ != self.methods()[i as int].name@);
                        }
                    }
                }
                Some(&self.methods[i])
            },
            None => None,
        }
    }
}

/// The position of the method called `name` in `methods`.
fn find_method(methods: &Vec<Method>, name: &String) -> (r: Option<usize>)
    ensures
        match r {
            Some(i) => i < methods@.len() && methods@[i as int].name@ == name@,
            None => forall|k: int| 0 <= k < methods@.len() ==> #[trigger] methods@[k].name@ != name@,
        },
{
    let mut i: usize = 0;
    while i < methods.len()
        invariant
            i <= methods@.len(),
            forall|k: int| 0 <= k < i ==> #[trigger] methods@[k].name@ != name@,
        decreases methods@.len() - i,
    {
        if methods[i].name == *name {
            return Some(i);
        }
        i = i + 1;
    }
    None
}

/// Gathers the methods of a class, then checks its name in `create_class`.
#[derive(Debug)]
pub struct ClassBuilder {
    class: Class,
}

impl ClassBuilder {
    /// The class gathered so far.
    pub closed spec fn class(&self) -> Class {
        self.class
    }

    pub fn new(name: String) -> (r: ClassBuilder)
        ensures
            r.class().spec_name() == name,
            r.class().methods().len() == 0,
            r.class().wf(),
    {
        ClassBuilder {
            class: Class { name, constant_pool: ConstantPool::default(), methods: Vec::new() },
        }
    }

    /// Adds the method that `method_builder` creates, replacing any method of
    /// the same name; the builder's error, if it fails.
    pub fn new_method(&mut self, method_builder: MethodBuilder) -> (r: Result<(), AstError>)
        requires
            old(self).class().wf(),
        ensures
            final(self).class().wf(),
            match method_builder.outcome() {
                Err(e) => r == Err::<(), AstError>(e) && *final(self) == *old(self),
                Ok(m) => {
                    &&& r is Ok
                    &&& final(self).class().spec_name() == old(self).class().spec_name()
                    &&& final(self).class().method_named(m.name@) == Some(m)
                    &&& forall|k: Seq<char>|
                        k != m.name@ ==> #[trigger] final(self).class().method_named(k)
                            == old(self).class().method_named(k)
                },
            },
    {
        let method = match method_builder.create_method() {
            Ok(m) => m,
            Err(e) => return Err(e),
        };
        let ghost old_ms = self.class.methods@;
        let ghost m = method;
        match find_method(&self.class.methods, &method.name) {
            Some(i) => {
                self.class.methods.set(i, method);
                proof {
                    let ms = self.class.methods@;
                    assert(ms == old_ms.update(i as int, m));
                    assert forall|a: int, b: int|
                        0 <= a < b < ms.len() implies #[trigger] ms[a].name@ != #[trigger] ms[b].name@ by {
                        assert(old_ms[a].name@ != old_ms[b].name@);
                    }
                    assert(ms[i as int].name@ == m.name@);
                    assert forall|k: Seq<char>| k != m.name@ implies #[trigger] self.class.method_named(k)
                        == old(self).class.method_named(k) by {
                        assert forall|x: int| 0 <= x < ms.len() implies (#[trigger] ms[x].name@ == k)
                            == (old_ms[x].name@ == k) by {
                            if x == i {
                                assert(old_ms[x].name@ == m.name@);
                            }
                        }
                        if exists|x: int| 0 <= x < old_ms.len() && #[trigger] old_ms[x].name@ == k {
                            let x2 = choose|x: int|
                                0 <= x < old_ms.len() && #[trigger] old_ms[x].name@ == k;
                            assert(ms[x2].name@ == k);
                        }
                        if exists|x: int| 0 <= x < ms.len() && #[trigger] ms[x].name@ == k {
                            let x1 = choose|x: int| 0 <= x < ms.len() && #[trigger] ms[x].name@ == k;
                            assert(old_ms[x1].name@ == k);
                            let x2 = choose|x: int|
                                0 <= x < old_ms.len() && #[trigger] old_ms[x].name@ == k;
                            assert(ms[x2].name@ == k);
                            if x1 < x2 {
                                assert(ms[x1].name@ != ms[x2].name@);
                            } else if x2 < x1 {
                                assert(ms[x2].name@ != ms[x1].name@);
                            }
                            assert(ms[x1] == old_ms[x1]);
                        }
                    }
                }
            },
            None => {
                self.class.methods.push(method);
                proof {
                    let ms = self.class.methods@;
                    assert(ms == old_ms.push(m));
                    assert(ms[old_ms.len() as int].name@ == m.name@);
                    assert forall|k: Seq<char>| k != m.name@ implies #[trigger] self.class.method_named(k)
                        == old(self).class.method_named(k) by {
                        assert forall|x: int| 0 <= x < old_ms.len() implies ms[x] == old_ms[x] by {}
                        if exists|x: int| 0 <= x < ms.len() && #[trigger] ms[x].name@ == k {
                            let x = choose|x: int| 0 <= x < ms.len() && #[trigger] ms[x].name@ == k;
                            assert(old_ms[x].name@ == k);
                        }
                    }
                }
            },
        }
        Ok(())
    }

    /// The class, unless its name is empty.
    pub fn create_class(self) -> (r: Result<Class, AstError>)
        ensures
            self.class().spec_name()@.len() == 0 ==> r == Err::<Class, AstError>(
                AstError::IllegalClassName(self.class().spec_name()),
            ),
            self.class().spec_name()@.len() > 0 ==> r == Ok::<Class, AstError>(self.class()),
    {
        if !is_valid_id(self.class.name.as_str()) {
            Err(AstError::IllegalClassName(self.class.name))
        } else {
            Ok(self.class)
        }
    }
}

/// Whether `id` can name a method or a class: it must not be empty.
pub fn is_valid_id(id: &str) -> (r: bool)
    ensures
        r == (id@.len() > 0),
{
    !id.is_empty()
}

} // verus!
