//! Totals of a shopping cart before and after a discount.
//!
//! A cart's products come in pages. [`calculation::calculate`] fetches the pages through a
//! function of the caller's, one after the other, and reduces them to the cart's total and its
//! total after the discount; the first failed fetch ends it. [`calculation::Calculation`] is the
//! same calculation taken one page at a time, for a caller that fetches in its own way, and
//! [`paging::Paginator`] is the sequence of pages alone.
//!
//! A discount is taken off the whole cart once its total has reached a threshold, or off each
//! product of a collection or above a price; [`discount`] says what either makes of a list of
//! products.
//!
//! Amounts are whole numbers of the smallest unit that the caller accounts in. Totals are wide
//! enough for every cart that can be delivered: no sum wraps or saturates.

pub mod calculation;
pub mod cart;
pub mod discount;
pub mod paging;
