//! The values that travel along the edges of the graph, and their types.
use crate::arith::{Scalar, Vector, VectorBits};
use vstd::prelude::*;

verus! {

/// `DataType`s are what defines the possible range of connections when
/// attaching two ports together. The graph UI will make sure to not allow
/// attaching incompatible datatypes.
#[derive(Clone, Copy, Debug, PartialEq, Eq, Structural)]
pub enum MyDataType {
    Scalar,
    Vec2,
    Text,
}

/// In the graph, input parameters can optionally have a constant value. This
/// value can be directly edited in a widget inside the node itself.
///
/// There will usually be a correspondence between data types and value types,
/// but nothing checks this consistency: whoever creates a parameter makes sure
/// that its value has the type it declares.
///
/// `S` and `V` are what stands for a scalar and for a vector.
#[derive(Debug)]
#[allow(inconsistent_fields)]
pub enum MyValueType<S, V> {
    Vec2 { value: V },
    Scalar { value: S },
    Text { value: String },
}

/// A constant of the graph: numbers are bit patterns.
pub type Constant = MyValueType<u32, VectorBits>;

/// A result of an evaluation: numbers are constants or results of steps.
pub type Computed = MyValueType<Scalar, Vector>;

/// What a value holds.
pub enum Value<S, V> {
    Vec2(V),
    Scalar(S),
    Text(Seq<char>),
}

impl<S, V> View for MyValueType<S, V> {
    type V = Value<S, V>;

    open spec fn view(&self) -> Value<S, V> {
        match *self {
            MyValueType::Vec2 { value } => Value::Vec2(value),
            MyValueType::Scalar { value } => Value::Scalar(value),
            MyValueType::Text { value } => Value::Text(value@),
        }
    }
}

/// The type of a value.
pub open spec fn type_of<S, V>(value: Value<S, V>) -> MyDataType {
    match value {
        Value::Vec2(_) => MyDataType::Vec2,
        Value::Scalar(_) => MyDataType::Scalar,
        Value::Text(_) => MyDataType::Text,
    }
}

/// A value that was asked for as another type.
#[derive(Debug)]
pub struct CastError<S, V> {
    pub value: MyValueType<S, V>,
    pub wanted: MyDataType,
}

impl Default for MyValueType<u32, VectorBits> {
    /// The scalar zero, whose bit pattern is zero.
    fn default() -> (r: Self)
        ensures
            r == (MyValueType::<u32, VectorBits>::Scalar { value: 0 }),
    {
        MyValueType::Scalar { value: 0 }
    }
}

impl<S: Copy, V: Copy> Clone for MyValueType<S, V> {
    fn clone(&self) -> (r: Self)
        ensures
            r == *self,
    {
        match self {
            MyValueType::Vec2 { value } => MyValueType::Vec2 { value: *value },
            MyValueType::Scalar { value } => MyValueType::Scalar { value: *value },
            MyValueType::Text { value } => MyValueType::Text { value: value.clone() },
        }
    }
}

impl<S, V> MyValueType<S, V> {
    /// Tries to downcast this value type to a vector
    pub fn try_to_vec2(self) -> (r: Result<V, CastError<S, V>>)
        ensures
            match self {
                MyValueType::Vec2 { value } => r == Ok::<V, CastError<S, V>>(value),
                _ => r == Err::<V, CastError<S, V>>(
                    CastError { value: self, wanted: MyDataType::Vec2 },
                ),
            },
    {
        match self {
            MyValueType::Vec2 { value } => Ok(value),
            other => Err(CastError { value: other, wanted: MyDataType::Vec2 }),
        }
    }

    /// Tries to downcast this value type to a scalar
    pub fn try_to_scalar(self) -> (r: Result<S, CastError<S, V>>)
        ensures
            match self {
                MyValueType::Scalar { value } => r == Ok::<S, CastError<S, V>>(value),
                _ => r == Err::<S, CastError<S, V>>(
                    CastError { value: self, wanted: MyDataType::Scalar },
                ),
            },
    {
        match self {
            MyValueType::Scalar { value } => Ok(value),
            other => Err(CastError { value: other, wanted: MyDataType::Scalar }),
        }
    }

    /// Tries to downcast this value type to a text
    pub fn try_to_text(self) -> (r: Result<String, CastError<S, V>>)
        ensures
            match self {
                MyValueType::Text { value } => r == Ok::<String, CastError<S, V>>(value),
                _ => r == Err::<String, CastError<S, V>>(
                    CastError { value: self, wanted: MyDataType::Text },
                ),
            },
    {
        match self {
            MyValueType::Text { value } => Ok(value),
            other => Err(CastError { value: other, wanted: MyDataType::Text }),
        }
    }
}

/// The word for a type in the message of a failed cast.
pub open spec fn cast_word(wanted: MyDataType) -> Seq<char> {
    match wanted {
        MyDataType::Scalar => "scalar"@,
        MyDataType::Vec2 => "vec2"@,
        MyDataType::Text => "text"@,
    }
}

impl<S, V> CastError<S, V> {
    /// The message of the error, where `shown` is how the value prints.
    pub fn message(&self, shown: &str) -> (r: String)
        ensures
            r@ == "Invalid cast from "@ + shown@ + " to "@ + cast_word(self.wanted),
    {
        let mut message = "Invalid cast from ".to_owned();
        message.append(shown);
        message.append(" to ");
        match self.wanted {
            MyDataType::Scalar => message.append("scalar"),
            MyDataType::Vec2 => message.append("vec2"),
            MyDataType::Text => message.append("text"),
        }
        message
    }
}

/// The colour that `egui::Color32::from_rgb` makes: the three components as
/// given, and fully opaque. It is handed out as red, green, blue and alpha.
#[verifier::external_body]
fn opaque_color(r: u8, g: u8, b: u8) -> (color: [u8; 4])
    ensures
        color@ == seq![r, g, b, 255u8],
{
    egui::Color32::from_rgb(r, g, b).to_array()
}

/// The colour of the ports of a type: red, green, blue and alpha.
pub open spec fn port_color(data_type: MyDataType) -> Seq<u8> {
    match data_type {
        MyDataType::Scalar => seq![38u8, 109u8, 211u8, 255u8],
        MyDataType::Vec2 => seq![238u8, 207u8, 109u8, 255u8],
        MyDataType::Text => seq![238u8, 238u8, 238u8, 255u8],
    }
}

/// The name of a type, as shown to the user.
pub open spec fn shown_name(data_type: MyDataType) -> Seq<char> {
    match data_type {
        MyDataType::Scalar => "scalar"@,
        MyDataType::Vec2 => "2d vector"@,
        MyDataType::Text => "text"@,
    }
}

impl MyDataType {
    /// The associated port color of this datatype
    pub fn data_type_color(&self) -> (color: [u8; 4])
        ensures
            color@ == port_color(*self),
    {
        match self {
            MyDataType::Scalar => opaque_color(38, 109, 211),
            MyDataType::Vec2 => opaque_color(238, 207, 109),
            MyDataType::Text => opaque_color(238, 238, 238),
        }
    }

    /// The name of this datatype.
    pub fn name(&self) -> (r: &'static str)
        ensures
            r@ == shown_name(*self),
    {
        match self {
            MyDataType::Scalar => "scalar",
            MyDataType::Vec2 => "2d vector",
            MyDataType::Text => "text",
        }
    }
}

} // verus!
