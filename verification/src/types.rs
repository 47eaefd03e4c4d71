//! What a column is a column of: types, single values and the errors that refuse them.

use std::sync::Arc;
use vstd::arithmetic::power::{lemma_pow_increases, pow};
use vstd::prelude::*;

verus! {

/// What kind of refusal an error is.
#[derive(Debug, Clone, Copy, PartialEq, Eq, Structural)]
pub enum ErrorCode {
    /// A mistake inside the engine rather than in what it was asked.
    Internal,
    /// Something that is valid and that nothing here runs yet.
    NotImplemented,
    /// Text that is not a statement.
    Parser,
    /// A value that could not be read as the type it was asked for in.
    Conversion,
    /// A row that breaks a rule its table declares.
    Constraint,
    /// A statement that does not fit the transaction it arrived in.
    Transaction,
    /// Input that means nothing where it was given.
    InvalidInput,
    /// The storage underneath.
    Io,
}

/// What an error names besides its words: a type, a layout or a value, which are printed by whoever
/// shows the error.
#[derive(Debug, PartialEq)]
pub enum Subject {
    Nothing,
    Type(LogicalType),
    Layout(PhysicalType),
    /// A type, and after it a layout.
    TypeAndLayout(LogicalType, PhysicalType),
    Held(Value),
}

/// What an error names, as a contract speaks of it.
pub enum About {
    Nothing,
    Type(LogicalType),
    Layout(PhysicalType),
    TypeAndLayout(LogicalType, PhysicalType),
    Held(Datum),
}

impl View for Subject {
    type V = About;

    open spec fn view(&self) -> About {
        match self {
            Subject::Nothing => About::Nothing,
            Subject::Type(ty) => About::Type(*ty),
            Subject::Layout(layout) => About::Layout(*layout),
            Subject::TypeAndLayout(ty, layout) => About::TypeAndLayout(*ty, *layout),
            Subject::Held(value) => About::Held(value.datum()),
        }
    }
}

impl Subject {
    /// The same subject again.
    pub fn dup(&self) -> (copy: Subject)
        ensures
            copy@ == self@,
    {
        match self {
            Subject::Nothing => Subject::Nothing,
            Subject::Type(ty) => Subject::Type(ty.dup()),
            Subject::Layout(layout) => Subject::Layout(*layout),
            Subject::TypeAndLayout(ty, layout) => Subject::TypeAndLayout(ty.dup(), *layout),
            Subject::Held(value) => Subject::Held(value.dup()),
        }
    }
}

/// What went wrong, and in what words. Where the words name something, a `{}` stands for each thing
/// they name.
#[derive(Debug, PartialEq)]
pub struct Error {
    pub code: ErrorCode,
    pub message: String,
    pub about: Subject,
}

/// An error as a contract speaks of it: the kind, the characters of the message and what it names.
pub struct Failure {
    pub code: ErrorCode,
    pub message: Seq<char>,
    pub about: About,
}

impl View for Error {
    type V = Failure;

    open spec fn view(&self) -> Failure {
        Failure { code: self.code, message: self.message@, about: self.about@ }
    }
}

impl Error {
    /// An error of that kind, in those words.
    pub fn new(code: ErrorCode, message: &str) -> (error: Error)
        ensures
            error@ == (Failure { code, message: message@, about: About::Nothing }),
    {
        Error { code, message: message.to_owned(), about: Subject::Nothing }
    }

    pub fn internal(message: &str) -> (error: Error)
        ensures
            error@ == (Failure {
                code: ErrorCode::Internal,
                message: message@,
                about: About::Nothing,
            }),
    {
        Error::new(ErrorCode::Internal, message)
    }

    pub fn not_implemented(message: &str) -> (error: Error)
        ensures
            error@ == (Failure {
                code: ErrorCode::NotImplemented,
                message: message@,
                about: About::Nothing,
            }),
    {
        Error::new(ErrorCode::NotImplemented, message)
    }

    pub fn transaction(message: &str) -> (error: Error)
        ensures
            error@ == (Failure {
                code: ErrorCode::Transaction,
                message: message@,
                about: About::Nothing,
            }),
    {
        Error::new(ErrorCode::Transaction, message)
    }

    pub fn invalid_input(message: &str) -> (error: Error)
        ensures
            error@ == (Failure {
                code: ErrorCode::InvalidInput,
                message: message@,
                about: About::Nothing,
            }),
    {
        Error::new(ErrorCode::InvalidInput, message)
    }

    pub fn parser(message: &str) -> (error: Error)
        ensures
            error@ == (Failure {
                code: ErrorCode::Parser,
                message: message@,
                about: About::Nothing,
            }),
    {
        Error::new(ErrorCode::Parser, message)
    }

    pub fn constraint(message: &str) -> (error: Error)
        ensures
            error@ == (Failure {
                code: ErrorCode::Constraint,
                message: message@,
                about: About::Nothing,
            }),
    {
        Error::new(ErrorCode::Constraint, message)
    }

    pub fn code(&self) -> (code: ErrorCode)
        ensures
            code == self@.code,
    {
        self.code
    }
}

/// How the values of a type are laid out when they are laid out flat.
#[derive(Debug, Clone, Copy, PartialEq, Eq, Structural)]
pub enum PhysicalType {
    Empty,
    Bool,
    Int8,
    Int16,
    Int32,
    Int64,
    Int128,
    UInt8,
    UInt16,
    UInt32,
    UInt64,
    UInt128,
    Float32,
    Float64,
    Interval,
    Varlen,
    List,
    Struct,
    Array,
    Union,
}

/// One column of a table or one member of a struct.
#[derive(Debug, PartialEq)]
pub struct Field {
    pub name: String,
    pub ty: LogicalType,
    pub not_null: bool,
}

/// What a value means, whatever bytes it is kept in.
///
/// The parts of a nested type are shared, so handing a type on never copies a tree.
#[derive(Debug, PartialEq)]
pub enum LogicalType {
    Null,
    Boolean,
    TinyInt,
    SmallInt,
    Integer,
    BigInt,
    HugeInt,
    UTinyInt,
    USmallInt,
    UInteger,
    UBigInt,
    UHugeInt,
    Float,
    Double,
    Decimal { width: u8, scale: u8 },
    Varchar,
    Blob,
    Bit,
    Date,
    Time,
    TimeTz,
    Timestamp,
    TimestampS,
    TimestampMs,
    TimestampNs,
    TimestampTz,
    Interval,
    List(Arc<LogicalType>),
    Struct(Arc<Vec<Field>>),
    Mapping(Arc<LogicalType>, Arc<LogicalType>),
    Array(Arc<LogicalType>, u32),
    Union(Arc<Vec<Field>>),
}

/// The layout a decimal of that many digits is kept in: the narrowest integer that holds them all.
pub open spec fn decimal_layout(width: u8) -> PhysicalType {
    if width <= 4 {
        PhysicalType::Int16
    } else if width <= 9 {
        PhysicalType::Int32
    } else if width <= 18 {
        PhysicalType::Int64
    } else {
        PhysicalType::Int128
    }
}

/// The layout a type's values are kept in.
pub open spec fn layout_for(ty: LogicalType) -> PhysicalType {
    match ty {
        LogicalType::Null => PhysicalType::Empty,
        LogicalType::Boolean => PhysicalType::Bool,
        LogicalType::TinyInt => PhysicalType::Int8,
        LogicalType::SmallInt => PhysicalType::Int16,
        LogicalType::Integer | LogicalType::Date => PhysicalType::Int32,
        LogicalType::BigInt
        | LogicalType::Time
        | LogicalType::TimeTz
        | LogicalType::Timestamp
        | LogicalType::TimestampS
        | LogicalType::TimestampMs
        | LogicalType::TimestampNs
        | LogicalType::TimestampTz => PhysicalType::Int64,
        LogicalType::HugeInt => PhysicalType::Int128,
        LogicalType::UTinyInt => PhysicalType::UInt8,
        LogicalType::USmallInt => PhysicalType::UInt16,
        LogicalType::UInteger => PhysicalType::UInt32,
        LogicalType::UBigInt => PhysicalType::UInt64,
        LogicalType::UHugeInt => PhysicalType::UInt128,
        LogicalType::Float => PhysicalType::Float32,
        LogicalType::Double => PhysicalType::Float64,
        LogicalType::Decimal { width, .. } => decimal_layout(width),
        LogicalType::Varchar | LogicalType::Blob | LogicalType::Bit => PhysicalType::Varlen,
        LogicalType::Interval => PhysicalType::Interval,
        LogicalType::List(_) | LogicalType::Mapping(_, _) => PhysicalType::List,
        LogicalType::Struct(_) => PhysicalType::Struct,
        LogicalType::Array(_, _) => PhysicalType::Array,
        LogicalType::Union(_) => PhysicalType::Union,
    }
}

/// Whether no field has a name, which is what makes a struct a tuple.
pub open spec fn all_unnamed(fields: Seq<Field>) -> bool {
    &&& fields.len() > 0
    &&& forall|i: int| 0 <= i < fields.len() ==> (#[trigger] fields[i]).name@.len() == 0
}

impl Field {
    /// A column that may hold nulls.
    pub fn new(name: String, ty: LogicalType) -> (field: Field)
        ensures
            field == (Field { name, ty, not_null: false }),
    {
        Field { name, ty, not_null: false }
    }

    /// Whether these are the fields of a tuple, which are told apart by place and not by name.
    pub fn unnamed(fields: &[Field]) -> (yes: bool)
        ensures
            yes == all_unnamed(fields@),
    {
        if fields.len() == 0 {
            return false;
        }
        let mut at: usize = 0;
        while at < fields.len()
            invariant
                at <= fields.len(),
                forall|i: int| 0 <= i < at ==> (#[trigger] fields@[i]).name@.len() == 0,
            decreases fields.len() - at,
        {
            if !same_text(fields[at].name.as_str(), "") {
                proof {
                    reveal_strlit("");
                    if fields@[at as int].name@.len() == 0 {
                        assert(fields@[at as int].name@ =~= ""@);
                    }
                }
                return false;
            }
            proof {
                reveal_strlit("");
            }
            at += 1;
        }
        true
    }

    /// The same field again.
    pub fn dup(&self) -> (field: Field)
        ensures
            field == *self,
    {
        Field { name: self.name.clone(), ty: self.ty.dup(), not_null: self.not_null }
    }
}

/// Whether two texts hold the same characters.
pub fn same_text(left: &str, right: &str) -> (same: bool)
    ensures
        same == (left@ == right@),
{
    left.to_owned() == right.to_owned()
}

impl LogicalType {
    /// A list of that element.
    pub fn list(element: LogicalType) -> (ty: LogicalType)
        ensures
            ty == LogicalType::List(Arc::new(element)),
    {
        LogicalType::List(Arc::new(element))
    }

    /// A map from that key to that value.
    pub fn map(key: LogicalType, value: LogicalType) -> (ty: LogicalType)
        ensures
            ty == LogicalType::Mapping(Arc::new(key), Arc::new(value)),
    {
        LogicalType::Mapping(Arc::new(key), Arc::new(value))
    }

    /// A struct of those fields.
    pub fn structure(fields: Vec<Field>) -> (ty: LogicalType)
        ensures
            ty == LogicalType::Struct(Arc::new(fields)),
    {
        LogicalType::Struct(Arc::new(fields))
    }

    /// A decimal of `width` digits with `scale` of them after the point.
    pub fn decimal(width: u8, scale: u8) -> (ty: LogicalType)
        ensures
            ty == (LogicalType::Decimal { width, scale }),
    {
        LogicalType::Decimal { width, scale }
    }

    /// The same type again.
    pub fn dup(&self) -> (ty: LogicalType)
        ensures
            ty == *self,
    {
        match self {
            LogicalType::Null => LogicalType::Null,
            LogicalType::Boolean => LogicalType::Boolean,
            LogicalType::TinyInt => LogicalType::TinyInt,
            LogicalType::SmallInt => LogicalType::SmallInt,
            LogicalType::Integer => LogicalType::Integer,
            LogicalType::BigInt => LogicalType::BigInt,
            LogicalType::HugeInt => LogicalType::HugeInt,
            LogicalType::UTinyInt => LogicalType::UTinyInt,
            LogicalType::USmallInt => LogicalType::USmallInt,
            LogicalType::UInteger => LogicalType::UInteger,
            LogicalType::UBigInt => LogicalType::UBigInt,
            LogicalType::UHugeInt => LogicalType::UHugeInt,
            LogicalType::Float => LogicalType::Float,
            LogicalType::Double => LogicalType::Double,
            LogicalType::Decimal { width, scale } => LogicalType::Decimal {
                width: *width,
                scale: *scale,
            },
            LogicalType::Varchar => LogicalType::Varchar,
            LogicalType::Blob => LogicalType::Blob,
            LogicalType::Bit => LogicalType::Bit,
            LogicalType::Date => LogicalType::Date,
            LogicalType::Time => LogicalType::Time,
            LogicalType::TimeTz => LogicalType::TimeTz,
            LogicalType::Timestamp => LogicalType::Timestamp,
            LogicalType::TimestampS => LogicalType::TimestampS,
            LogicalType::TimestampMs => LogicalType::TimestampMs,
            LogicalType::TimestampNs => LogicalType::TimestampNs,
            LogicalType::TimestampTz => LogicalType::TimestampTz,
            LogicalType::Interval => LogicalType::Interval,
            LogicalType::List(element) => LogicalType::List(element.clone()),
            LogicalType::Struct(fields) => LogicalType::Struct(fields.clone()),
            LogicalType::Mapping(key, value) => LogicalType::Mapping(key.clone(), value.clone()),
            LogicalType::Array(element, len) => LogicalType::Array(element.clone(), *len),
            LogicalType::Union(fields) => LogicalType::Union(fields.clone()),
        }
    }

    /// The layout this type's values are kept in.
    pub fn physical(&self) -> (layout: PhysicalType)
        ensures
            layout == layout_for(*self),
    {
        match self {
            LogicalType::Null => PhysicalType::Empty,
            LogicalType::Boolean => PhysicalType::Bool,
            LogicalType::TinyInt => PhysicalType::Int8,
            LogicalType::SmallInt => PhysicalType::Int16,
            LogicalType::Integer | LogicalType::Date => PhysicalType::Int32,
            LogicalType::BigInt
            | LogicalType::Time
            | LogicalType::TimeTz
            | LogicalType::Timestamp
            | LogicalType::TimestampS
            | LogicalType::TimestampMs
            | LogicalType::TimestampNs
            | LogicalType::TimestampTz => PhysicalType::Int64,
            LogicalType::HugeInt => PhysicalType::Int128,
            LogicalType::UTinyInt => PhysicalType::UInt8,
            LogicalType::USmallInt => PhysicalType::UInt16,
            LogicalType::UInteger => PhysicalType::UInt32,
            LogicalType::UBigInt => PhysicalType::UInt64,
            LogicalType::UHugeInt => PhysicalType::UInt128,
            LogicalType::Float => PhysicalType::Float32,
            LogicalType::Double => PhysicalType::Float64,
            LogicalType::Decimal { width, .. } => {
                if *width <= 4 {
                    PhysicalType::Int16
                } else if *width <= 9 {
                    PhysicalType::Int32
                } else if *width <= 18 {
                    PhysicalType::Int64
                } else {
                    PhysicalType::Int128
                }
            },
            LogicalType::Varchar | LogicalType::Blob | LogicalType::Bit => PhysicalType::Varlen,
            LogicalType::Interval => PhysicalType::Interval,
            LogicalType::List(_) | LogicalType::Mapping(_, _) => PhysicalType::List,
            LogicalType::Struct(_) => PhysicalType::Struct,
            LogicalType::Array(_, _) => PhysicalType::Array,
            LogicalType::Union(_) => PhysicalType::Union,
        }
    }
}

/// One value on its own.
///
/// A float is kept as the bits of its IEEE 754 encoding, so two values are the same value exactly
/// when they are the same bits.
#[derive(Debug, PartialEq)]
pub enum Value {
    Null,
    Boolean(bool),
    TinyInt(i8),
    SmallInt(i16),
    Integer(i32),
    BigInt(i64),
    HugeInt(i128),
    UTinyInt(u8),
    USmallInt(u16),
    UInteger(u32),
    UBigInt(u64),
    UHugeInt(u128),
    Float(u32),
    Double(u64),
    Decimal { unscaled: i128, width: u8, scale: u8 },
    Varchar(String),
    Blob(Vec<u8>),
    Date(i32),
    Time(i64),
    TimeTz(i64),
    Timestamp(i64),
    TimestampTz(i64),
    Interval { months: i32, days: i32, micros: i64 },
    List { element: LogicalType, values: Vec<Value> },
    Struct(Vec<(String, Value)>),
    Mapping { key: LogicalType, value: LogicalType, entries: Vec<(Value, Value)> },
}

/// What a value is, as a contract speaks of it.
pub enum Datum {
    Null,
    Boolean(bool),
    TinyInt(i8),
    SmallInt(i16),
    Integer(i32),
    BigInt(i64),
    HugeInt(i128),
    UTinyInt(u8),
    USmallInt(u16),
    UInteger(u32),
    UBigInt(u64),
    UHugeInt(u128),
    Float(u32),
    Double(u64),
    Decimal { unscaled: i128, width: u8, scale: u8 },
    Varchar(Seq<char>),
    Blob(Seq<u8>),
    Date(i32),
    Time(i64),
    TimeTz(i64),
    Timestamp(i64),
    TimestampTz(i64),
    Interval { months: i32, days: i32, micros: i64 },
    List { element: LogicalType, values: Seq<Datum> },
    Struct(Seq<(Seq<char>, Datum)>),
    Mapping { key: LogicalType, value: LogicalType, entries: Seq<(Datum, Datum)> },
}

impl Value {
    /// What this value is.
    pub open spec fn datum(&self) -> Datum
        decreases self,
    {
        match self {
            Value::Null => Datum::Null,
            Value::Boolean(x) => Datum::Boolean(*x),
            Value::TinyInt(x) => Datum::TinyInt(*x),
            Value::SmallInt(x) => Datum::SmallInt(*x),
            Value::Integer(x) => Datum::Integer(*x),
            Value::BigInt(x) => Datum::BigInt(*x),
            Value::HugeInt(x) => Datum::HugeInt(*x),
            Value::UTinyInt(x) => Datum::UTinyInt(*x),
            Value::USmallInt(x) => Datum::USmallInt(*x),
            Value::UInteger(x) => Datum::UInteger(*x),
            Value::UBigInt(x) => Datum::UBigInt(*x),
            Value::UHugeInt(x) => Datum::UHugeInt(*x),
            Value::Float(x) => Datum::Float(*x),
            Value::Double(x) => Datum::Double(*x),
            Value::Decimal { unscaled, width, scale } => Datum::Decimal {
                unscaled: *unscaled,
                width: *width,
                scale: *scale,
            },
            Value::Varchar(text) => Datum::Varchar(text@),
            Value::Blob(bytes) => Datum::Blob(bytes@),
            Value::Date(x) => Datum::Date(*x),
            Value::Time(x) => Datum::Time(*x),
            Value::TimeTz(x) => Datum::TimeTz(*x),
            Value::Timestamp(x) => Datum::Timestamp(*x),
            Value::TimestampTz(x) => Datum::TimestampTz(*x),
            Value::Interval { months, days, micros } => Datum::Interval {
                months: *months,
                days: *days,
                micros: *micros,
            },
            Value::List { element, values } => Datum::List {
                element: *element,
                values: Seq::new(
                    values@.len(),
                    |i: int|
                        if 0 <= i < values@.len() {
                            values@[i].datum()
                        } else {
                            Datum::Null
                        },
                ),
            },
            Value::Struct(fields) => Datum::Struct(
                Seq::new(
                    fields@.len(),
                    |i: int|
                        if 0 <= i < fields@.len() {
                            (fields@[i].0@, fields@[i].1.datum())
                        } else {
                            (Seq::empty(), Datum::Null)
                        },
                ),
            ),
            Value::Mapping { key, value, entries } => Datum::Mapping {
                key: *key,
                value: *value,
                entries: Seq::new(
                    entries@.len(),
                    |i: int|
                        if 0 <= i < entries@.len() {
                            (entries@[i].0.datum(), entries@[i].1.datum())
                        } else {
                            (Datum::Null, Datum::Null)
                        },
                ),
            },
        }
    }

    /// Whether there is no value here.
    pub fn is_null(&self) -> (null: bool)
        ensures
            null == (self.datum() == Datum::Null),
            null == (*self is Null),
    {
        matches!(self, Value::Null)
    }

    /// The same value again.
    pub fn dup(&self) -> (copy: Value)
        ensures
            copy.datum() == self.datum(),
        decreases self,
    {
        match self {
            Value::Null => Value::Null,
            Value::Boolean(x) => Value::Boolean(*x),
            Value::TinyInt(x) => Value::TinyInt(*x),
            Value::SmallInt(x) => Value::SmallInt(*x),
            Value::Integer(x) => Value::Integer(*x),
            Value::BigInt(x) => Value::BigInt(*x),
            Value::HugeInt(x) => Value::HugeInt(*x),
            Value::UTinyInt(x) => Value::UTinyInt(*x),
            Value::USmallInt(x) => Value::USmallInt(*x),
            Value::UInteger(x) => Value::UInteger(*x),
            Value::UBigInt(x) => Value::UBigInt(*x),
            Value::UHugeInt(x) => Value::UHugeInt(*x),
            Value::Float(x) => Value::Float(*x),
            Value::Double(x) => Value::Double(*x),
            Value::Decimal { unscaled, width, scale } => Value::Decimal {
                unscaled: *unscaled,
                width: *width,
                scale: *scale,
            },
            Value::Varchar(text) => Value::Varchar(text.clone()),
            Value::Blob(bytes) => Value::Blob(copy_bytes(bytes.as_slice())),
            Value::Date(x) => Value::Date(*x),
            Value::Time(x) => Value::Time(*x),
            Value::TimeTz(x) => Value::TimeTz(*x),
            Value::Timestamp(x) => Value::Timestamp(*x),
            Value::TimestampTz(x) => Value::TimestampTz(*x),
            Value::Interval { months, days, micros } => Value::Interval {
                months: *months,
                days: *days,
                micros: *micros,
            },
            Value::List { element, values } => {
                let mut out: Vec<Value> = Vec::new();
                let mut at: usize = 0;
                while at < values.len()
                    invariant
                        at <= values.len(),
                        out.len() == at,
                        *self == (Value::List { element: *element, values: *values }),
                        forall|i: int|
                            0 <= i < at ==> (#[trigger] out@[i]).datum() == values@[i].datum(),
                    decreases values.len() - at,
                {
                    assert(decreases_to!(*self => self->List_values@[at as int]));
                    out.push(values[at].dup());
                    at += 1;
                }
                let copy = Value::List { element: element.dup(), values: out };
                assert(copy.datum()->List_values =~= self.datum()->List_values);
                copy
            },
            Value::Struct(fields) => {
                let mut out: Vec<(String, Value)> = Vec::new();
                let mut at: usize = 0;
                while at < fields.len()
                    invariant
                        at <= fields.len(),
                        out.len() == at,
                        *self == Value::Struct(*fields),
                        forall|i: int|
                            0 <= i < at ==> (#[trigger] out@[i]).0@ == fields@[i].0@
                                && out@[i].1.datum() == fields@[i].1.datum(),
                    decreases fields.len() - at,
                {
                    assert(decreases_to!(*self => self->Struct_0@[at as int].1));
                    out.push((fields[at].0.clone(), fields[at].1.dup()));
                    at += 1;
                }
                let copy = Value::Struct(out);
                assert(copy.datum()->Struct_0 =~= self.datum()->Struct_0);
                copy
            },
            Value::Mapping { key, value, entries } => {
                let mut out: Vec<(Value, Value)> = Vec::new();
                let mut at: usize = 0;
                while at < entries.len()
                    invariant
                        at <= entries.len(),
                        out.len() == at,
                        *self == (Value::Mapping { key: *key, value: *value, entries: *entries }),
                        forall|i: int|
                            0 <= i < at ==> (#[trigger] out@[i]).0.datum() == entries@[i].0.datum()
                                && out@[i].1.datum() == entries@[i].1.datum(),
                    decreases entries.len() - at,
                {
                    assert(decreases_to!(*self => self->Mapping_entries@[at as int].0));
                    assert(decreases_to!(*self => self->Mapping_entries@[at as int].1));
                    out.push((entries[at].0.dup(), entries[at].1.dup()));
                    at += 1;
                }
                let copy = Value::Mapping { key: key.dup(), value: value.dup(), entries: out };
                assert(copy.datum()->Mapping_entries =~= self.datum()->Mapping_entries);
                copy
            },
        }
    }
}

impl Clone for Error {
    fn clone(&self) -> (copy: Self)
        ensures
            copy@ == self@,
    {
        Error { code: self.code, message: self.message.clone(), about: self.about.dup() }
    }
}

impl Clone for Field {
    fn clone(&self) -> (copy: Self)
        ensures
            copy == *self,
    {
        self.dup()
    }
}

impl Clone for LogicalType {
    fn clone(&self) -> (copy: Self)
        ensures
            copy == *self,
    {
        self.dup()
    }
}

impl Clone for Value {
    fn clone(&self) -> (copy: Self)
        ensures
            copy.datum() == self.datum(),
    {
        self.dup()
    }
}

/// The same bytes again.
pub fn copy_bytes(bytes: &[u8]) -> (copy: Vec<u8>)
    ensures
        copy@ == bytes@,
{
    let mut copy: Vec<u8> = Vec::new();
    copy.extend_from_slice(bytes);
    assert(copy@ =~= bytes@);
    copy
}

/// A decimal is kept in an integer that holds every number of its digits, and in no wider one than
/// that takes.
pub proof fn law_a_decimal_is_kept_in_the_narrowest_integer(width: u8)
    ensures
        width <= 4 ==> decimal_layout(width) is Int16 && pow(10, width as nat) <= 0x8000,
        4 < width <= 9 ==> decimal_layout(width) is Int32 && 0x8000 < pow(10, width as nat)
            <= 0x8000_0000,
        9 < width <= 18 ==> decimal_layout(width) is Int64 && 0x8000_0000 < pow(10, width as nat)
            <= 0x8000_0000_0000_0000,
        18 < width ==> decimal_layout(width) is Int128 && 0x8000_0000_0000_0000 < pow(
            10,
            width as nat,
        ),
{
    reveal_with_fuel(pow, 20);
    assert(pow(10, 4) == 10_000);
    assert(pow(10, 5) == 100_000);
    assert(pow(10, 9) == 1_000_000_000);
    assert(pow(10, 10) == 10_000_000_000);
    assert(pow(10, 18) == 1_000_000_000_000_000_000);
    assert(pow(10, 19) == 10_000_000_000_000_000_000);
    if width <= 4 {
        lemma_pow_increases(10, width as nat, 4);
    } else if width <= 9 {
        lemma_pow_increases(10, width as nat, 9);
        lemma_pow_increases(10, 5, width as nat);
    } else if width <= 18 {
        lemma_pow_increases(10, width as nat, 18);
        lemma_pow_increases(10, 10, width as nat);
    } else {
        lemma_pow_increases(10, 19, width as nat);
    }
}

/// A type's values are kept in a run that is as wide as they are and has their signs. A date is a count
/// of days in 32 bits, and times and timestamps are counts in 64.
pub proof fn law_a_type_is_laid_out_as_its_values_are(ty: LogicalType)
    ensures
        ty is Boolean ==> layout_for(ty) is Bool,
        ty is TinyInt ==> layout_for(ty) is Int8,
        ty is SmallInt ==> layout_for(ty) is Int16,
        ty is Integer ==> layout_for(ty) is Int32,
        ty is Date ==> layout_for(ty) is Int32,
        ty is BigInt ==> layout_for(ty) is Int64,
        ty is Time || ty is TimeTz ==> layout_for(ty) is Int64,
        ty is Timestamp || ty is TimestampS || ty is TimestampMs || ty is TimestampNs
            || ty is TimestampTz ==> layout_for(ty) is Int64,
        ty is HugeInt ==> layout_for(ty) is Int128,
        ty is UTinyInt ==> layout_for(ty) is UInt8,
        ty is USmallInt ==> layout_for(ty) is UInt16,
        ty is UInteger ==> layout_for(ty) is UInt32,
        ty is UBigInt ==> layout_for(ty) is UInt64,
        ty is UHugeInt ==> layout_for(ty) is UInt128,
        ty is Float ==> layout_for(ty) is Float32,
        ty is Double ==> layout_for(ty) is Float64,
        ty is Varchar || ty is Blob || ty is Bit ==> layout_for(ty) is Varlen,
        ty is List || ty is Mapping ==> layout_for(ty) is List,
        ty is Struct ==> layout_for(ty) is Struct,
        ty is Decimal ==> layout_for(ty) == decimal_layout(ty->Decimal_width),
{
}

/// One field with a name makes the others of a struct named too.
pub proof fn law_a_tuple_has_no_names(fields: Seq<Field>, i: int)
    requires
        0 <= i < fields.len(),
    ensures
        fields[i].name@.len() > 0 ==> !all_unnamed(fields),
        fields.len() == 1 && fields[i].name@.len() == 0 ==> all_unnamed(fields),
        !all_unnamed(Seq::<Field>::empty()),
{
}

} // verus!
