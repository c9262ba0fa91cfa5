//! The functions and subscriptions that the test servers provide.
use vstd::prelude::*;

use crate::protocol::MsgId;

verus! {

/// Add two numbers.
#[derive(Debug, Clone, Copy, PartialEq, Eq, Structural)]
pub struct Add(pub i32, pub i32);

impl MsgId for Add {
    const ID: &'static str = "add";
}

/// Multiply two numbers; the output is a `Result`.
#[derive(Debug, Clone, Copy, PartialEq, Eq, Structural)]
pub struct TryMultiply(pub i32, pub i32);

impl MsgId for TryMultiply {
    const ID: &'static str = "try-multiply";
}

/// Count upwards from a number.
#[derive(Debug, Clone, Copy, PartialEq, Eq, Structural)]
pub struct Counter(pub i32);

impl MsgId for Counter {
    const ID: &'static str = "counter";
}

/// Add a number to each update.
#[derive(Debug, Clone, Copy, PartialEq, Eq, Structural)]
pub struct AddN(pub i32);

impl MsgId for AddN {
    const ID: &'static str = "add-n";
}

/// The initial reply of an `AddN` subscription.
pub const ADD_N_REPLY: &'static str = "AddN initialized";

/// The server's implementation of [`Add`].
pub fn add(args: Add) -> (r: i32)
    requires
        i32::MIN <= args.0 + args.1 <= i32::MAX,
    ensures
        r == args.0 + args.1,
{
    args.0 + args.1
}

/// The server's implementation of [`TryMultiply`].
pub fn try_multiply(args: TryMultiply) -> (r: Result<i32, ()>)
    requires
        i32::MIN <= args.0 * args.1 <= i32::MAX,
    ensures
        r == Ok::<i32, ()>((args.0 * args.1) as i32),
{
    Ok(args.0 * args.1)
}

/// The items of a `Counter` subscription: ten numbers from the start.
pub fn counter(args: Counter) -> (r: Vec<i32>)
    requires
        args.0 + 10 <= i32::MAX,
    ensures
        r@.len() == 10,
        forall|i: int| 0 <= i < 10 ==> #[trigger] r@[i] == args.0 + i,
{
    let mut items: Vec<i32> = Vec::new();
    let mut x: i32 = args.0;
    while x < args.0 + 10
        invariant
            args.0 + 10 <= i32::MAX,
            args.0 <= x <= args.0 + 10,
            items@.len() == x - args.0,
            forall|i: int| 0 <= i < items@.len() ==> #[trigger] items@[i] == args.0 + i,
        decreases args.0 + 10 - x,
    {
        items.push(x);
        x = x + 1;
    }
    items
}

/// An item of an `AddN` subscription: the update plus the number.
pub fn add_n(args: AddN, update: i32) -> (r: i32)
    requires
        i32::MIN <= update + args.0 <= i32::MAX,
    ensures
        r == update + args.0,
{
    update + args.0
}

} // verus!
