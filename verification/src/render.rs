//! The display capability: a type that can render itself as text, and the
//! coercion adapter that grants it to types which only expose a borrowed
//! string view.

use vstd::prelude::*;

verus! {

/// A value that renders itself as text.
///
/// `text` is the specification-level text of the value; `render` produces
/// exactly that text. This is the capability the joiner asks of elements
/// and separators.
pub trait Render {
    /// The text this value renders to.
    spec fn text(&self) -> Seq<char>;

    /// Produce the rendered text.
    fn render(&self) -> (r: String)
        ensures
            r@ == self.text(),
    ;
}

/// A value that exposes a read-only text view of itself without any
/// rendering machinery: the string-borrowing capability.
pub trait StrLike {
    /// The borrowed text.
    spec fn str_text(&self) -> Seq<char>;

    /// Borrow the text view; never fails and never allocates.
    fn borrow_str(&self) -> (r: &str)
        ensures
            r@ == self.str_text(),
    ;
}

impl Render for String {
    open spec fn text(&self) -> Seq<char> {
        self@
    }

    fn render(&self) -> (r: String) {
        self.clone()
    }
}

impl StrLike for String {
    open spec fn str_text(&self) -> Seq<char> {
        self@
    }

    fn borrow_str(&self) -> (r: &str) {
        self.as_str()
    }
}

impl<'a> Render for &'a str {
    open spec fn text(&self) -> Seq<char> {
        (*self)@
    }

    fn render(&self) -> (r: String) {
        (*self).to_owned()
    }
}

impl<'a> StrLike for &'a str {
    open spec fn str_text(&self) -> Seq<char> {
        (*self)@
    }

    fn borrow_str(&self) -> (r: &str) {
        *self
    }
}

/// Relies on String::push: appends the given character to the end of the
/// string, leaving the characters before it unchanged.
#[verifier::external_body]
fn push_char(s: &mut String, c: char)
    ensures
        final(s)@ == old(s)@ + seq![c],
{
    s.push(c);
}

impl Render for char {
    open spec fn text(&self) -> Seq<char> {
        seq![*self]
    }

    fn render(&self) -> (r: String) {
        let mut s = String::new();
        push_char(&mut s, *self);
        s
    }
}

/// The element-coercion adapter: grants the display capability to a value
/// that only exposes the string-borrowing capability, by emitting the
/// wrapped value's borrowed text view.
#[derive(Clone)]
pub struct DisplayWrapper<T: StrLike>(pub T);

impl<T: StrLike> DisplayWrapper<T> {
    /// Wrap a string-like value; never fails.
    pub fn new(value: T) -> (r: Self)
        ensures
            r.text() == value.str_text(),
    {
        DisplayWrapper(value)
    }
}

impl<T: StrLike> Render for DisplayWrapper<T> {
    open spec fn text(&self) -> Seq<char> {
        self.0.str_text()
    }

    fn render(&self) -> (r: String) {
        self.0.borrow_str().to_owned()
    }
}

impl<T: StrLike> StrLike for DisplayWrapper<T> {
    open spec fn str_text(&self) -> Seq<char> {
        self.0.str_text()
    }

    fn borrow_str(&self) -> (r: &str) {
        self.0.borrow_str()
    }
}

/// The decimal digit characters, least significant last, of a natural
/// number.
pub open spec fn dec_str(n: nat) -> Seq<char>
    decreases n,
{
    if n < 10 {
        seq![digit_char(n)]
    } else {
        dec_str(n / 10) + seq![digit_char(n % 10)]
    }
}

/// The character for one decimal digit.
pub open spec fn digit_char(d: nat) -> char {
    if d == 0 {
        '0'
    } else if d == 1 {
        '1'
    } else if d == 2 {
        '2'
    } else if d == 3 {
        '3'
    } else if d == 4 {
        '4'
    } else if d == 5 {
        '5'
    } else if d == 6 {
        '6'
    } else if d == 7 {
        '7'
    } else if d == 8 {
        '8'
    } else {
        '9'
    }
}

fn render_digit(d: u64) -> (r: char)
    requires
        d < 10,
    ensures
        r == digit_char(d as nat),
{
    match d {
        0 => '0',
        1 => '1',
        2 => '2',
        3 => '3',
        4 => '4',
        5 => '5',
        6 => '6',
        7 => '7',
        8 => '8',
        _ => '9',
    }
}

fn render_u64(n: u64) -> (r: String)
    ensures
        r@ == dec_str(n as nat),
    decreases n,
{
    if n < 10 {
        let mut s = String::new();
        push_char(&mut s, render_digit(n));
        s
    } else {
        let mut s = render_u64(n / 10);
        push_char(&mut s, render_digit(n % 10));
        s
    }
}

impl Render for u64 {
    open spec fn text(&self) -> Seq<char> {
        dec_str(*self as nat)
    }

    fn render(&self) -> (r: String) {
        render_u64(*self)
    }
}

/// The decimal text of an integer: a leading minus sign for a negative
/// value, then the digits of its magnitude.
pub open spec fn int_str(i: int) -> Seq<char> {
    if i < 0 {
        seq!['-'] + dec_str((-i) as nat)
    } else {
        dec_str(i as nat)
    }
}

impl Render for i64 {
    open spec fn text(&self) -> Seq<char> {
        int_str(*self as int)
    }

    fn render(&self) -> (r: String) {
        if *self >= 0 {
            render_u64(*self as u64)
        } else {
            let magnitude: u64 = ((-(*self + 1)) as u64) + 1;
            proof {
                assert(magnitude as nat == (-(*self as int)) as nat);
            }
            let mut s = String::new();
            push_char(&mut s, '-');
            let digits = render_u64(magnitude);
            s.append(digits.as_str());
            proof {
                assert(s@ =~= int_str(*self as int));
            }
            s
        }
    }
}

} // verus!
