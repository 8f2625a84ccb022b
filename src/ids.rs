//! Identities of entities, built-in names and the `Item` sum type.
use vstd::prelude::*;

verus! {

/// The interned identity of an ingot.
#[derive(Debug, Clone, Copy, PartialEq, Eq, PartialOrd, Ord, Hash, Structural)]
pub struct IngotId(pub u32);

/// The interned identity of a module.
#[derive(Debug, Clone, Copy, PartialEq, Eq, PartialOrd, Ord, Hash, Structural)]
pub struct ModuleId(pub u32);

/// The interned identity of a source file.
#[derive(Debug, Clone, Copy, PartialEq, Eq, PartialOrd, Ord, Hash, Structural)]
pub struct SourceFileId(pub u32);

/// The interned identity of a module-level constant.
#[derive(Debug, Clone, Copy, PartialEq, Eq, PartialOrd, Ord, Hash, Structural)]
pub struct ModuleConstantId(pub u32);

/// The interned identity of a type alias.
#[derive(Debug, Clone, Copy, PartialEq, Eq, PartialOrd, Ord, Hash, Structural)]
pub struct TypeAliasId(pub u32);

/// The interned identity of a contract.
#[derive(Debug, Clone, Copy, PartialEq, Eq, PartialOrd, Ord, Hash, Structural)]
pub struct ContractId(pub u32);

/// The interned identity of a contract field.
#[derive(Debug, Clone, Copy, PartialEq, Eq, PartialOrd, Ord, Hash, Structural)]
pub struct ContractFieldId(pub u32);

/// The interned identity of a function.
#[derive(Debug, Clone, Copy, PartialEq, Eq, PartialOrd, Ord, Hash, Structural)]
pub struct FunctionId(pub u32);

/// The interned identity of a struct.
#[derive(Debug, Clone, Copy, PartialEq, Eq, PartialOrd, Ord, Hash, Structural)]
pub struct StructId(pub u32);

/// The interned identity of a struct field.
#[derive(Debug, Clone, Copy, PartialEq, Eq, PartialOrd, Ord, Hash, Structural)]
pub struct StructFieldId(pub u32);

/// The interned identity of an event.
#[derive(Debug, Clone, Copy, PartialEq, Eq, PartialOrd, Ord, Hash, Structural)]
pub struct EventId(pub u32);

/// Primitive integer type.
#[derive(Debug, Clone, Copy, PartialEq, Eq, PartialOrd, Ord, Hash, Structural)]
pub enum Integer {
    U256,
    U128,
    U64,
    U32,
    U16,
    U8,
    I256,
    I128,
    I64,
    I32,
    I16,
    I8,
}

/// The name of a primitive integer type in source text.
pub open spec fn integer_name(x: Integer) -> Seq<char> {
    match x {
        Integer::U256 => "u256"@,
        Integer::U128 => "u128"@,
        Integer::U64 => "u64"@,
        Integer::U32 => "u32"@,
        Integer::U16 => "u16"@,
        Integer::U8 => "u8"@,
        Integer::I256 => "i256"@,
        Integer::I128 => "i128"@,
        Integer::I64 => "i64"@,
        Integer::I32 => "i32"@,
        Integer::I16 => "i16"@,
        Integer::I8 => "i8"@,
    }
}

impl Integer {
    /// Every value, in declaration order.
    pub open spec fn all() -> Seq<Integer> {
        seq![Integer::U256, Integer::U128, Integer::U64, Integer::U32, Integer::U16, Integer::U8, Integer::I256, Integer::I128, Integer::I64, Integer::I32, Integer::I16, Integer::I8]
    }

    /// The name in source text.
    pub fn as_str(&self) -> (r: &'static str)
        ensures
            r@ == integer_name(*self),
    {
        match self {
            Integer::U256 => "u256",
            Integer::U128 => "u128",
            Integer::U64 => "u64",
            Integer::U32 => "u32",
            Integer::U16 => "u16",
            Integer::U8 => "u8",
            Integer::I256 => "i256",
            Integer::I128 => "i128",
            Integer::I64 => "i64",
            Integer::I32 => "i32",
            Integer::I16 => "i16",
            Integer::I8 => "i8",
        }
    }

    /// Every value, in declaration order.
    pub fn iter_all() -> (r: Vec<Integer>)
        ensures
            r@ == Integer::all(),
    {
        let r = vec![Integer::U256, Integer::U128, Integer::U64, Integer::U32, Integer::U16, Integer::U8, Integer::I256, Integer::I128, Integer::I64, Integer::I32, Integer::I16, Integer::I8];
        assert(r@ =~= Integer::all());
        r
    }
}

/// Generic type constructor.
#[derive(Debug, Clone, Copy, PartialEq, Eq, PartialOrd, Ord, Hash, Structural)]
pub enum GenericType {
    Array,
    Str,
    Mapping,
}

/// The name of a generic type constructor in source text.
pub open spec fn generic_type_name(x: GenericType) -> Seq<char> {
    match x {
        GenericType::Array => "Array"@,
        GenericType::Str => "String"@,
        GenericType::Mapping => "Map"@,
    }
}

impl GenericType {
    /// Every value, in declaration order.
    pub open spec fn all() -> Seq<GenericType> {
        seq![GenericType::Array, GenericType::Str, GenericType::Mapping]
    }

    /// The name in source text.
    pub fn as_str(&self) -> (r: &'static str)
        ensures
            r@ == generic_type_name(*self),
    {
        match self {
            GenericType::Array => "Array",
            GenericType::Str => "String",
            GenericType::Mapping => "Map",
        }
    }

    /// Every value, in declaration order.
    pub fn iter_all() -> (r: Vec<GenericType>)
        ensures
            r@ == GenericType::all(),
    {
        let r = vec![GenericType::Array, GenericType::Str, GenericType::Mapping];
        assert(r@ =~= GenericType::all());
        r
    }
}

/// Built-in function.
#[derive(Debug, Clone, Copy, PartialEq, Eq, PartialOrd, Ord, Hash, Structural)]
pub enum GlobalFunction {
    Keccak256,
}

/// The name of a built-in function in source text.
pub open spec fn global_function_name(x: GlobalFunction) -> Seq<char> {
    match x {
        GlobalFunction::Keccak256 => "keccak256"@,
    }
}

impl GlobalFunction {
    /// Every value, in declaration order.
    pub open spec fn all() -> Seq<GlobalFunction> {
        seq![GlobalFunction::Keccak256]
    }

    /// The name in source text.
    pub fn as_str(&self) -> (r: &'static str)
        ensures
            r@ == global_function_name(*self),
    {
        match self {
            GlobalFunction::Keccak256 => "keccak256",
        }
    }

    /// Every value, in declaration order.
    pub fn iter_all() -> (r: Vec<GlobalFunction>)
        ensures
            r@ == GlobalFunction::all(),
    {
        let r = vec![GlobalFunction::Keccak256];
        assert(r@ =~= GlobalFunction::all());
        r
    }
}

/// Intrinsic function.
#[derive(Debug, Clone, Copy, PartialEq, Eq, PartialOrd, Ord, Hash, Structural)]
pub enum Intrinsic {
    Stop,
    Add,
    Sub,
    Mul,
    Div,
    Sdiv,
    Mod,
    Smod,
    Exp,
    Not,
    Lt,
    Gt,
    Slt,
    Sgt,
    Eq,
    Iszero,
    And,
    Or,
    Xor,
    Byte,
    Shl,
    Shr,
    Sar,
    Addmod,
    Mulmod,
    Signextend,
    Keccak256,
    Pop,
    Mload,
    Mstore,
    Mstore8,
    Sload,
    Sstore,
    Msize,
    Gas,
    Address,
    Balance,
    Selfbalance,
    Caller,
    Callvalue,
    Calldataload,
    Calldatasize,
    Calldatacopy,
    Codesize,
    Codecopy,
    Returndatasize,
    Returndatacopy,
    Create,
    Create2,
    Call,
    Callcode,
    Delegatecall,
    Staticcall,
    Return,
    Revert,
    Selfdestruct,
    Invalid,
    Log0,
    Log1,
    Log2,
    Log3,
    Log4,
    Chainid,
    Basefee,
    Origin,
    Gasprice,
    Blockhash,
    Coinbase,
    Timestamp,
    Number,
    Difficulty,
    Gaslimit,
}

/// The name of a intrinsic function in source text.
pub open spec fn intrinsic_name(x: Intrinsic) -> Seq<char> {
    match x {
        Intrinsic::Stop => "__stop"@,
        Intrinsic::Add => "__add"@,
        Intrinsic::Sub => "__sub"@,
        Intrinsic::Mul => "__mul"@,
        Intrinsic::Div => "__div"@,
        Intrinsic::Sdiv => "__sdiv"@,
        Intrinsic::Mod => "__mod"@,
        Intrinsic::Smod => "__smod"@,
        Intrinsic::Exp => "__exp"@,
        Intrinsic::Not => "__not"@,
        Intrinsic::Lt => "__lt"@,
        Intrinsic::Gt => "__gt"@,
        Intrinsic::Slt => "__slt"@,
        Intrinsic::Sgt => "__sgt"@,
        Intrinsic::Eq => "__eq"@,
        Intrinsic::Iszero => "__iszero"@,
        Intrinsic::And => "__and"@,
        Intrinsic::Or => "__or"@,
        Intrinsic::Xor => "__xor"@,
        Intrinsic::Byte => "__byte"@,
        Intrinsic::Shl => "__shl"@,
        Intrinsic::Shr => "__shr"@,
        Intrinsic::Sar => "__sar"@,
        Intrinsic::Addmod => "__addmod"@,
        Intrinsic::Mulmod => "__mulmod"@,
        Intrinsic::Signextend => "__signextend"@,
        Intrinsic::Keccak256 => "__keccak256"@,
        Intrinsic::Pop => "__pop"@,
        Intrinsic::Mload => "__mload"@,
        Intrinsic::Mstore => "__mstore"@,
        Intrinsic::Mstore8 => "__mstore8"@,
        Intrinsic::Sload => "__sload"@,
        Intrinsic::Sstore => "__sstore"@,
        Intrinsic::Msize => "__msize"@,
        Intrinsic::Gas => "__gas"@,
        Intrinsic::Address => "__address"@,
        Intrinsic::Balance => "__balance"@,
        Intrinsic::Selfbalance => "__selfbalance"@,
        Intrinsic::Caller => "__caller"@,
        Intrinsic::Callvalue => "__callvalue"@,
        Intrinsic::Calldataload => "__calldataload"@,
        Intrinsic::Calldatasize => "__calldatasize"@,
        Intrinsic::Calldatacopy => "__calldatacopy"@,
        Intrinsic::Codesize => "__codesize"@,
        Intrinsic::Codecopy => "__codecopy"@,
        Intrinsic::Returndatasize => "__returndatasize"@,
        Intrinsic::Returndatacopy => "__returndatacopy"@,
        Intrinsic::Create => "__create"@,
        Intrinsic::Create2 => "__create2"@,
        Intrinsic::Call => "__call"@,
        Intrinsic::Callcode => "__callcode"@,
        Intrinsic::Delegatecall => "__delegatecall"@,
        Intrinsic::Staticcall => "__staticcall"@,
        Intrinsic::Return => "__return"@,
        Intrinsic::Revert => "__revert"@,
        Intrinsic::Selfdestruct => "__selfdestruct"@,
        Intrinsic::Invalid => "__invalid"@,
        Intrinsic::Log0 => "__log0"@,
        Intrinsic::Log1 => "__log1"@,
        Intrinsic::Log2 => "__log2"@,
        Intrinsic::Log3 => "__log3"@,
        Intrinsic::Log4 => "__log4"@,
        Intrinsic::Chainid => "__chainid"@,
        Intrinsic::Basefee => "__basefee"@,
        Intrinsic::Origin => "__origin"@,
        Intrinsic::Gasprice => "__gasprice"@,
        Intrinsic::Blockhash => "__blockhash"@,
        Intrinsic::Coinbase => "__coinbase"@,
        Intrinsic::Timestamp => "__timestamp"@,
        Intrinsic::Number => "__number"@,
        Intrinsic::Difficulty => "__difficulty"@,
        Intrinsic::Gaslimit => "__gaslimit"@,
    }
}

impl Intrinsic {
    /// Every value, in declaration order.
    pub open spec fn all() -> Seq<Intrinsic> {
        seq![Intrinsic::Stop, Intrinsic::Add, Intrinsic::Sub, Intrinsic::Mul, Intrinsic::Div, Intrinsic::Sdiv, Intrinsic::Mod, Intrinsic::Smod, Intrinsic::Exp, Intrinsic::Not, Intrinsic::Lt, Intrinsic::Gt, Intrinsic::Slt, Intrinsic::Sgt, Intrinsic::Eq, Intrinsic::Iszero, Intrinsic::And, Intrinsic::Or, Intrinsic::Xor, Intrinsic::Byte, Intrinsic::Shl, Intrinsic::Shr, Intrinsic::Sar, Intrinsic::Addmod, Intrinsic::Mulmod, Intrinsic::Signextend, Intrinsic::Keccak256, Intrinsic::Pop, Intrinsic::Mload, Intrinsic::Mstore, Intrinsic::Mstore8, Intrinsic::Sload, Intrinsic::Sstore, Intrinsic::Msize, Intrinsic::Gas, Intrinsic::Address, Intrinsic::Balance, Intrinsic::Selfbalance, Intrinsic::Caller, Intrinsic::Callvalue, Intrinsic::Calldataload, Intrinsic::Calldatasize, Intrinsic::Calldatacopy, Intrinsic::Codesize, Intrinsic::Codecopy, Intrinsic::Returndatasize, Intrinsic::Returndatacopy, Intrinsic::Create, Intrinsic::Create2, Intrinsic::Call, Intrinsic::Callcode, Intrinsic::Delegatecall, Intrinsic::Staticcall, Intrinsic::Return, Intrinsic::Revert, Intrinsic::Selfdestruct, Intrinsic::Invalid, Intrinsic::Log0, Intrinsic::Log1, Intrinsic::Log2, Intrinsic::Log3, Intrinsic::Log4, Intrinsic::Chainid, Intrinsic::Basefee, Intrinsic::Origin, Intrinsic::Gasprice, Intrinsic::Blockhash, Intrinsic::Coinbase, Intrinsic::Timestamp, Intrinsic::Number, Intrinsic::Difficulty, Intrinsic::Gaslimit]
    }

    /// The name in source text.
    pub fn as_str(&self) -> (r: &'static str)
        ensures
            r@ == intrinsic_name(*self),
    {
        match self {
            Intrinsic::Stop => "__stop",
            Intrinsic::Add => "__add",
            Intrinsic::Sub => "__sub",
            Intrinsic::Mul => "__mul",
            Intrinsic::Div => "__div",
            Intrinsic::Sdiv => "__sdiv",
            Intrinsic::Mod => "__mod",
            Intrinsic::Smod => "__smod",
            Intrinsic::Exp => "__exp",
            Intrinsic::Not => "__not",
            Intrinsic::Lt => "__lt",
            Intrinsic::Gt => "__gt",
            Intrinsic::Slt => "__slt",
            Intrinsic::Sgt => "__sgt",
            Intrinsic::Eq => "__eq",
            Intrinsic::Iszero => "__iszero",
            Intrinsic::And => "__and",
            Intrinsic::Or => "__or",
            Intrinsic::Xor => "__xor",
            Intrinsic::Byte => "__byte",
            Intrinsic::Shl => "__shl",
            Intrinsic::Shr => "__shr",
            Intrinsic::Sar => "__sar",
            Intrinsic::Addmod => "__addmod",
            Intrinsic::Mulmod => "__mulmod",
            Intrinsic::Signextend => "__signextend",
            Intrinsic::Keccak256 => "__keccak256",
            Intrinsic::Pop => "__pop",
            Intrinsic::Mload => "__mload",
            Intrinsic::Mstore => "__mstore",
            Intrinsic::Mstore8 => "__mstore8",
            Intrinsic::Sload => "__sload",
            Intrinsic::Sstore => "__sstore",
            Intrinsic::Msize => "__msize",
            Intrinsic::Gas => "__gas",
            Intrinsic::Address => "__address",
            Intrinsic::Balance => "__balance",
            Intrinsic::Selfbalance => "__selfbalance",
            Intrinsic::Caller => "__caller",
            Intrinsic::Callvalue => "__callvalue",
            Intrinsic::Calldataload => "__calldataload",
            Intrinsic::Calldatasize => "__calldatasize",
            Intrinsic::Calldatacopy => "__calldatacopy",
            Intrinsic::Codesize => "__codesize",
            Intrinsic::Codecopy => "__codecopy",
            Intrinsic::Returndatasize => "__returndatasize",
            Intrinsic::Returndatacopy => "__returndatacopy",
            Intrinsic::Create => "__create",
            Intrinsic::Create2 => "__create2",
            Intrinsic::Call => "__call",
            Intrinsic::Callcode => "__callcode",
            Intrinsic::Delegatecall => "__delegatecall",
            Intrinsic::Staticcall => "__staticcall",
            Intrinsic::Return => "__return",
            Intrinsic::Revert => "__revert",
            Intrinsic::Selfdestruct => "__selfdestruct",
            Intrinsic::Invalid => "__invalid",
            Intrinsic::Log0 => "__log0",
            Intrinsic::Log1 => "__log1",
            Intrinsic::Log2 => "__log2",
            Intrinsic::Log3 => "__log3",
            Intrinsic::Log4 => "__log4",
            Intrinsic::Chainid => "__chainid",
            Intrinsic::Basefee => "__basefee",
            Intrinsic::Origin => "__origin",
            Intrinsic::Gasprice => "__gasprice",
            Intrinsic::Blockhash => "__blockhash",
            Intrinsic::Coinbase => "__coinbase",
            Intrinsic::Timestamp => "__timestamp",
            Intrinsic::Number => "__number",
            Intrinsic::Difficulty => "__difficulty",
            Intrinsic::Gaslimit => "__gaslimit",
        }
    }

    /// Every value, in declaration order.
    pub fn iter_all() -> (r: Vec<Intrinsic>)
        ensures
            r@ == Intrinsic::all(),
    {
        let r = vec![Intrinsic::Stop, Intrinsic::Add, Intrinsic::Sub, Intrinsic::Mul, Intrinsic::Div, Intrinsic::Sdiv, Intrinsic::Mod, Intrinsic::Smod, Intrinsic::Exp, Intrinsic::Not, Intrinsic::Lt, Intrinsic::Gt, Intrinsic::Slt, Intrinsic::Sgt, Intrinsic::Eq, Intrinsic::Iszero, Intrinsic::And, Intrinsic::Or, Intrinsic::Xor, Intrinsic::Byte, Intrinsic::Shl, Intrinsic::Shr, Intrinsic::Sar, Intrinsic::Addmod, Intrinsic::Mulmod, Intrinsic::Signextend, Intrinsic::Keccak256, Intrinsic::Pop, Intrinsic::Mload, Intrinsic::Mstore, Intrinsic::Mstore8, Intrinsic::Sload, Intrinsic::Sstore, Intrinsic::Msize, Intrinsic::Gas, Intrinsic::Address, Intrinsic::Balance, Intrinsic::Selfbalance, Intrinsic::Caller, Intrinsic::Callvalue, Intrinsic::Calldataload, Intrinsic::Calldatasize, Intrinsic::Calldatacopy, Intrinsic::Codesize, Intrinsic::Codecopy, Intrinsic::Returndatasize, Intrinsic::Returndatacopy, Intrinsic::Create, Intrinsic::Create2, Intrinsic::Call, Intrinsic::Callcode, Intrinsic::Delegatecall, Intrinsic::Staticcall, Intrinsic::Return, Intrinsic::Revert, Intrinsic::Selfdestruct, Intrinsic::Invalid, Intrinsic::Log0, Intrinsic::Log1, Intrinsic::Log2, Intrinsic::Log3, Intrinsic::Log4, Intrinsic::Chainid, Intrinsic::Basefee, Intrinsic::Origin, Intrinsic::Gasprice, Intrinsic::Blockhash, Intrinsic::Coinbase, Intrinsic::Timestamp, Intrinsic::Number, Intrinsic::Difficulty, Intrinsic::Gaslimit];
        assert(r@ =~= Intrinsic::all());
        r
    }
}

/// Built-in object.
#[derive(Debug, Clone, Copy, PartialEq, Eq, PartialOrd, Ord, Hash, Structural)]
pub enum GlobalObject {
    Block,
    Chain,
    Msg,
    Tx,
}

/// The name of a built-in object in source text.
pub open spec fn global_object_name(x: GlobalObject) -> Seq<char> {
    match x {
        GlobalObject::Block => "block"@,
        GlobalObject::Chain => "chain"@,
        GlobalObject::Msg => "msg"@,
        GlobalObject::Tx => "tx"@,
    }
}

impl GlobalObject {
    /// Every value, in declaration order.
    pub open spec fn all() -> Seq<GlobalObject> {
        seq![GlobalObject::Block, GlobalObject::Chain, GlobalObject::Msg, GlobalObject::Tx]
    }

    /// The name in source text.
    pub fn as_str(&self) -> (r: &'static str)
        ensures
            r@ == global_object_name(*self),
    {
        match self {
            GlobalObject::Block => "block",
            GlobalObject::Chain => "chain",
            GlobalObject::Msg => "msg",
            GlobalObject::Tx => "tx",
        }
    }

    /// Every value, in declaration order.
    pub fn iter_all() -> (r: Vec<GlobalObject>)
        ensures
            r@ == GlobalObject::all(),
    {
        let r = vec![GlobalObject::Block, GlobalObject::Chain, GlobalObject::Msg, GlobalObject::Tx];
        assert(r@ =~= GlobalObject::all());
        r
    }
}

/// A primitive type.
#[derive(Debug, Clone, Copy, PartialEq, Eq, PartialOrd, Ord, Hash, Structural)]
pub enum Base {
    Numeric(Integer),
    Bool,
    Address,
    Unit,
}

/// The name of a primitive type.
pub open spec fn base_name(b: Base) -> Seq<char> {
    match b {
        Base::Numeric(i) => integer_name(i),
        Base::Bool => "bool"@,
        Base::Address => "address"@,
        Base::Unit => "()"@,
    }
}

impl Base {
    /// The name in source text.
    pub fn name(&self) -> (r: &'static str)
        ensures
            r@ == base_name(*self),
    {
        match self {
            Base::Numeric(i) => i.as_str(),
            Base::Bool => "bool",
            Base::Address => "address",
            Base::Unit => "()",
        }
    }
}

/// A named type definition.
#[derive(Debug, Clone, Copy, PartialEq, Eq, PartialOrd, Ord, Hash, Structural)]
pub enum TypeDef {
    Alias(TypeAliasId),
    Struct(StructId),
    Contract(ContractId),
    Primitive(Base),
}

/// A named item. Items inside function bodies are not items.
#[derive(Debug, Clone, Copy, PartialEq, Eq, PartialOrd, Ord, Hash, Structural)]
pub enum Item {
    Ingot(IngotId),
    Module(ModuleId),
    Type(TypeDef),
    GenericType(GenericType),
    Event(EventId),
    Function(FunctionId),
    Constant(ModuleConstantId),
    BuiltinFunction(GlobalFunction),
    Intrinsic(Intrinsic),
    Object(GlobalObject),
}

/// An item that can have member functions.
#[derive(Debug, Clone, Copy, PartialEq, Eq, PartialOrd, Ord, Hash, Structural)]
pub enum Class {
    Contract(ContractId),
    Struct(StructId),
}

/// Whether an item is one of the language's built-ins.
pub open spec fn spec_is_builtin(i: Item) -> bool {
    match i {
        Item::Type(TypeDef::Primitive(_)) | Item::GenericType(_) | Item::BuiltinFunction(_)
        | Item::Object(_) | Item::Intrinsic(_) => true,
        _ => false,
    }
}

/// The word that names an item's kind in messages.
pub open spec fn kind_name(i: Item) -> Seq<char> {
    match i {
        Item::Type(_) | Item::GenericType(_) => "type"@,
        Item::Event(_) => "event"@,
        Item::Function(_) | Item::BuiltinFunction(_) => "function"@,
        Item::Intrinsic(_) => "intrinsic function"@,
        Item::Object(_) => "object"@,
        Item::Constant(_) => "constant"@,
        Item::Ingot(_) => "ingot"@,
        Item::Module(_) => "module"@,
    }
}

impl Item {
    /// Whether this is a built-in: a primitive type, a generic type
    /// constructor, a built-in function, an intrinsic or a built-in object.
    pub fn is_builtin(&self) -> (r: bool)
        ensures
            r == spec_is_builtin(*self),
    {
        match self {
            Item::Type(TypeDef::Primitive(_)) | Item::GenericType(_) | Item::BuiltinFunction(_)
            | Item::Object(_) | Item::Intrinsic(_) => true,
            Item::Type(_) | Item::Event(_) | Item::Function(_) | Item::Constant(_) | Item::Ingot(_)
            | Item::Module(_) => false,
        }
    }

    /// Whether this is the struct `val`.
    pub fn is_struct(&self, val: &StructId) -> (r: bool)
        ensures
            r == (*self == Item::Type(TypeDef::Struct(*val))),
    {
        match self {
            Item::Type(TypeDef::Struct(current)) => *current == *val,
            _ => false,
        }
    }

    /// The word that names this item's kind in messages.
    pub fn item_kind_display_name(&self) -> (r: &'static str)
        ensures
            r@ == kind_name(*self),
    {
        match self {
            Item::Type(_) | Item::GenericType(_) => "type",
            Item::Event(_) => "event",
            Item::Function(_) | Item::BuiltinFunction(_) => "function",
            Item::Intrinsic(_) => "intrinsic function",
            Item::Object(_) => "object",
            Item::Constant(_) => "constant",
            Item::Ingot(_) => "ingot",
            Item::Module(_) => "module",
        }
    }

    /// The contract this item is, if it is one.
    pub fn as_contract(&self) -> (r: Option<ContractId>)
        ensures
            r == (match *self {
                Item::Type(TypeDef::Contract(id)) => Some(id),
                _ => None,
            }),
    {
        match self {
            Item::Type(TypeDef::Contract(id)) => Some(*id),
            _ => None,
        }
    }
}

impl Class {
    /// The item that this class is.
    pub open spec fn spec_as_item(self) -> Item {
        match self {
            Class::Contract(id) => Item::Type(TypeDef::Contract(id)),
            Class::Struct(id) => Item::Type(TypeDef::Struct(id)),
        }
    }

    /// The item that this class is.
    pub fn as_item(&self) -> (r: Item)
        ensures
            r == self.spec_as_item(),
    {
        match self {
            Class::Contract(id) => Item::Type(TypeDef::Contract(*id)),
            Class::Struct(id) => Item::Type(TypeDef::Struct(*id)),
        }
    }

    /// `contract` or `struct`.
    pub fn kind(&self) -> (r: &'static str)
        ensures
            r@ == (match *self {
                Class::Contract(_) => "contract"@,
                Class::Struct(_) => "struct"@,
            }),
    {
        match self {
            Class::Contract(_) => "contract",
            Class::Struct(_) => "struct",
        }
    }
}

} // verus!
