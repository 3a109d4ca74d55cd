//! The product record and the capabilities it offers.
use vstd::prelude::*;
use crate::decimal::{append_signed_decimal, signed_decimal};
use crate::price::Price;

verus! {

/// The text that the standard `Debug` rendering gives for a string: the
/// string between double quotes, with the characters that need it escaped.
pub uninterp spec fn debug_quoted(text: Seq<char>) -> Seq<char>;

/// Renders `text` with the standard `Debug` formatter of `str`. The result is
/// taken on trust to depend on the characters of `text` alone, which is all
/// that `debug_quoted` says of it.
#[verifier::external_body]
fn debug_quote(text: &str) -> (quoted: String)
    ensures
        quoted@ == debug_quoted(text@),
{
    format!("{:?}", text)
}

/// A text inside the frame that `Printable` gives by default.
pub open spec fn default_frame(quoted: Seq<char>) -> Seq<char> {
    "[Default pretty_print: "@ + quoted + "]"@
}

/// A one-line rendering as `Printable` shows it by default: debug-quoted,
/// inside the default frame.
pub open spec fn default_pretty(line: Seq<char>) -> Seq<char> {
    default_frame(debug_quoted(line))
}

/// Puts `quoted` inside the frame that `Printable` gives by default.
pub fn frame_by_default(quoted: &str) -> (text: String)
    ensures
        text@ == default_frame(quoted@),
{
    let mut text = "[Default pretty_print: ".to_string();
    text.append(quoted);
    text.append("]");
    text
}

/// Debug-quotes `line` and puts it inside the frame that `Printable` gives
/// by default.
pub fn default_pretty_print(line: &str) -> (text: String)
    ensures
        text@ == default_pretty(line@),
{
    let quoted = debug_quote(line);
    frame_by_default(quoted.as_str())
}

/// What has a one-line rendering for a human reader.
pub trait Printable {
    /// Renders the value on one line.
    fn format(&self) -> String;

    /// Renders the value inside a frame. Unless a type brings its own, the
    /// frame is the default one, around what `format` gave.
    fn pretty_print(&self) -> (text: String)
        default_ensures
            exists|line: String|
                call_ensures(Self::format, (self,), line) && text@ == default_pretty(line@),
    {
        let line = self.format();
        default_pretty_print(line.as_str())
    }
}

/// Why a value was refused by validation.
#[derive(Debug)]
pub struct ValidationError {
    /// The reason, for a human reader.
    pub message: String,
}

impl ValidationError {
    /// The reason as text.
    pub fn to_string(&self) -> (text: String)
        ensures
            text@ == self.message@,
    {
        self.message.clone()
    }
}

/// What can be written out for a machine and checked before it is.
pub trait Serializable {
    /// Writes the value out.
    fn serialize(&self) -> String;

    /// Checks the value. Unless a type brings its own rules, every value
    /// passes.
    fn validate(&self) -> (outcome: Result<(), ValidationError>)
        default_ensures
            outcome is Ok,
    {
        Ok(())
    }
}

/// What keeps a stock level.
pub trait InventoryManager {
    /// The stock level.
    spec fn stock(&self) -> int;

    /// Tells whether the stock is below `threshold`; a stock at the
    /// threshold is not.
    fn is_low_stock(&self, threshold: i32) -> (low: bool)
        ensures
            low == (self.stock() < threshold),
    ;

    /// Changes the stock level by `amount`, which may be below zero, and
    /// returns the line that reports the change. The new level has to be an
    /// `i32`; nothing else is asked of it.
    fn restock(&mut self, amount: i32) -> (notice: String)
        requires
            i32::MIN <= old(self).stock() + amount <= i32::MAX,
        ensures
            final(self).stock() == old(self).stock() + amount,
    ;
}

/// An article in stock. Any field may hold any value: a record is checked
/// only when `validate` is called on it.
#[derive(Debug)]
pub struct Product {
    pub name: String,
    pub price: Price,
    pub quantity: i32,
}

impl Clone for Product {
    fn clone(&self) -> (copy: Self)
        ensures
            copy == *self,
    {
        Product { name: self.name.clone(), price: self.price, quantity: self.quantity }
    }
}

/// The message of a refusal for a price below zero.
pub open spec fn price_message() -> Seq<char> {
    "Price cannot be negative"@
}

/// The message of a refusal for a quantity below zero.
pub open spec fn quantity_message() -> Seq<char> {
    "Quantity cannot be negative"@
}

impl Product {
    /// The record on one line: `<name> (Price: $<price>, Quantity: <quantity>)`,
    /// the price with two decimals.
    pub open spec fn formatted(&self) -> Seq<char> {
        self.name@ + " (Price: $"@ + self.price.two_decimal_text() + ", Quantity: "@
            + signed_decimal(self.quantity as int) + ")"@
    }

    /// The record in its own frame: `[Product: <the record on one line>]`.
    pub open spec fn pretty(&self) -> Seq<char> {
        "[Product: "@ + self.formatted() + "]"@
    }

    /// The record written out:
    /// `Product{name=<name>,price=<price>,quantity=<quantity>}`, the price
    /// with two decimals.
    pub open spec fn serialized(&self) -> Seq<char> {
        "Product{name="@ + self.name@ + ",price="@ + self.price.two_decimal_text() + ",quantity="@
            + signed_decimal(self.quantity as int) + "}"@
    }

    /// The first rule that the record breaks, by its message: the price is
    /// looked at before the quantity.
    pub open spec fn violation(&self) -> Option<Seq<char>> {
        if self.price.is_negative() {
            Some(price_message())
        } else if self.quantity < 0 {
            Some(quantity_message())
        } else {
            None
        }
    }

    /// The record after its stock level has changed by `amount`.
    pub open spec fn restocked(&self, amount: i32) -> Product {
        Product {
            name: self.name,
            price: self.price,
            quantity: (self.quantity + amount) as i32,
        }
    }

    /// The line that reports a change of the stock level by `amount`:
    /// `Restocked <name> by <amount> units`.
    pub open spec fn restock_notice(&self, amount: i32) -> Seq<char> {
        "Restocked "@ + self.name@ + " by "@ + signed_decimal(amount as int) + " units"@
    }

    /// The record on one line.
    pub fn to_string(&self) -> (text: String)
        ensures
            text@ == self.formatted(),
    {
        self.format()
    }
}

impl Printable for Product {
    fn format(&self) -> (text: String)
        ensures
            text@ == self.formatted(),
    {
        let mut text = self.name.clone();
        text.append(" (Price: $");
        text.append(self.price.to_two_decimals().as_str());
        text.append(", Quantity: ");
        append_signed_decimal(&mut text, self.quantity as i64);
        text.append(")");
        text
    }

    fn pretty_print(&self) -> (text: String)
        ensures
            text@ == self.pretty(),
    {
        let mut text = "[Product: ".to_string();
        text.append(self.format().as_str());
        text.append("]");
        text
    }
}

impl Serializable for Product {
    fn serialize(&self) -> (text: String)
        ensures
            text@ == self.serialized(),
    {
        let mut text = "Product{name=".to_string();
        text.append(self.name.as_str());
        text.append(",price=");
        text.append(self.price.to_two_decimals().as_str());
        text.append(",quantity=");
        append_signed_decimal(&mut text, self.quantity as i64);
        text.append("}");
        text
    }

    fn validate(&self) -> (outcome: Result<(), ValidationError>)
        ensures
            outcome is Ok <==> self.violation() is None,
            outcome matches Err(e) ==> self.violation() == Some(e.message@),
    {
        if self.price.below_zero() {
            return Err(ValidationError { message: "Price cannot be negative".to_string() });
        }
        if self.quantity < 0 {
            return Err(ValidationError { message: "Quantity cannot be negative".to_string() });
        }
        Ok(())
    }
}

impl InventoryManager for Product {
    open spec fn stock(&self) -> int {
        self.quantity as int
    }

    fn is_low_stock(&self, threshold: i32) -> (low: bool) {
        self.quantity < threshold
    }

    fn restock(&mut self, amount: i32) -> (notice: String)
        ensures
            *final(self) == old(self).restocked(amount),
            notice@ == old(self).restock_notice(amount),
    {
        self.quantity = self.quantity + amount;
        let mut notice = "Restocked ".to_string();
        notice.append(self.name.as_str());
        notice.append(" by ");
        append_signed_decimal(&mut notice, amount as i64);
        notice.append(" units");
        notice
    }
}

/// A record whose price is zero or more and whose quantity is zero or more
/// breaks no rule.
pub proof fn lemma_validate_accepts(product: Product)
    requires
        product.price.is_non_negative(),
        product.quantity >= 0,
    ensures
        product.violation() is None,
{
}

/// A record whose price is below zero breaks the rule on prices, whatever
/// its quantity is.
pub proof fn lemma_validate_refuses_price(product: Product)
    requires
        product.price.is_negative(),
    ensures
        product.violation() == Some(price_message()),
{
}

/// A record whose price is zero or more and whose quantity is below zero
/// breaks the rule on quantities.
pub proof fn lemma_validate_refuses_quantity(product: Product)
    requires
        product.price.is_non_negative(),
        product.quantity < 0,
    ensures
        product.violation() == Some(quantity_message()),
{
}

/// The two messages of refusal are different texts.
pub proof fn lemma_messages_differ()
    ensures
        price_message() != quantity_message(),
{
    reveal_strlit("Price cannot be negative");
    reveal_strlit("Quantity cannot be negative");
    assert(quantity_message().len() == 27);
}

/// Two changes of the stock level, one after the other, leave the record as
/// one change by their sum does, where the sum and each level reached is an
/// `i32`.
pub proof fn lemma_restock_composes(product: Product, first: i32, second: i32)
    requires
        i32::MIN <= product.quantity + first <= i32::MAX,
        i32::MIN <= product.quantity + first + second <= i32::MAX,
        i32::MIN <= first + second <= i32::MAX,
    ensures
        product.restocked(first).restocked(second) == product.restocked((first + second) as i32),
        product.restocked(first).restocked(second).stock() == product.stock() + first + second,
{
}

} // verus!
