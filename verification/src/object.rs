use vstd::prelude::*;

verus! {

/// A function value. The only one a program can reach is the native `clock`,
/// which the global scope defines.
#[derive(Debug, Clone, Copy, PartialEq, Eq, Structural)]
pub enum Callable {
    Clock,
}

impl Callable {
    pub open spec fn spec_arity(self) -> nat {
        match self {
            Callable::Clock => 0,
        }
    }

    pub fn arity(&self) -> (n: usize)
        ensures
            n == self.spec_arity(),
    {
        match self {
            Callable::Clock => 0,
        }
    }
}

/// A Lox value. A number is held as its decimal numeral: the form that the
/// host writes its binary64 value in. The host computes every number: the
/// results of arithmetic, and the value of each number literal, which it
/// gives to the scanned tokens with `scanner::set_number_values`.
pub enum Object {
    String(String),
    Number(String),
    Boolean(bool),
    Nil,
    Callable(Callable),
}

/// The mathematical value of an [`Object`].
pub enum ObjectModel {
    String(Seq<char>),
    Number(Seq<char>),
    Boolean(bool),
    Nil,
    Callable(Callable),
}

impl ObjectModel {
    pub open spec fn kind_name(self) -> Seq<char> {
        match self {
            ObjectModel::String(_) => "string"@,
            ObjectModel::Number(_) => "number"@,
            ObjectModel::Boolean(_) => "boolean"@,
            ObjectModel::Nil => "nil"@,
            ObjectModel::Callable(_) => "callable"@,
        }
    }

    /// The text that the printer shows for the value.
    pub open spec fn display(self) -> Seq<char> {
        match self {
            ObjectModel::String(s) => s,
            ObjectModel::Number(n) => n,
            ObjectModel::Boolean(b) => if b { "true"@ } else { "false"@ },
            ObjectModel::Nil => "nil"@,
            ObjectModel::Callable(_) => "<callable>"@,
        }
    }

    pub open spec fn is_truthy(self) -> bool {
        match self {
            ObjectModel::Nil => false,
            ObjectModel::Boolean(b) => b,
            _ => true,
        }
    }
}

impl View for Object {
    type V = ObjectModel;

    open spec fn view(&self) -> ObjectModel {
        match self {
            Object::String(s) => ObjectModel::String(s@),
            Object::Number(n) => ObjectModel::Number(n@),
            Object::Boolean(b) => ObjectModel::Boolean(*b),
            Object::Nil => ObjectModel::Nil,
            Object::Callable(c) => ObjectModel::Callable(*c),
        }
    }
}

impl Object {
    /// The name of the value's type, as error messages and the printer show it.
    pub fn get_type(&self) -> (name: &'static str)
        ensures
            name@ == self@.kind_name(),
    {
        match self {
            Object::String(_) => "string",
            Object::Number(_) => "number",
            Object::Boolean(_) => "boolean",
            Object::Nil => "nil",
            Object::Callable(_) => "callable",
        }
    }

    pub fn display(&self) -> (text: String)
        ensures
            text@ == self@.display(),
    {
        match self {
            Object::String(s) => s.clone(),
            Object::Number(n) => n.clone(),
            Object::Boolean(b) => if *b {
                String::from_str("true")
            } else {
                String::from_str("false")
            },
            Object::Nil => String::from_str("nil"),
            Object::Callable(_) => String::from_str("<callable>"),
        }
    }

    /// Lox truthiness: `nil` and `false` are false, every other value is true.
    pub fn is_truthy(&self) -> (b: bool)
        ensures
            b == self@.is_truthy(),
    {
        match self {
            Object::Nil => false,
            Object::Boolean(b) => *b,
            _ => true,
        }
    }
}

impl Clone for Object {
    fn clone(&self) -> (r: Self)
        ensures
            r == *self,
    {
        match self {
            Object::String(s) => Object::String(s.clone()),
            Object::Number(n) => Object::Number(n.clone()),
            Object::Boolean(b) => Object::Boolean(*b),
            Object::Nil => Object::Nil,
            Object::Callable(c) => Object::Callable(*c),
        }
    }
}

impl Default for Object {
    fn default() -> (r: Self)
        ensures
            r == Object::Nil,
    {
        Object::Nil
    }
}

} // verus!
