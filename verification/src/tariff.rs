//! [`Billing`] — the outcome of pricing: something billable, or a stated reason
//! there is not. "Nothing to bill" is neither an error nor an empty list.
use vstd::prelude::*;

use std::convert::Infallible;

use crate::assembly::{assembled, assembled_from, layered, plain_ok, BillingDocumentBuilder};
use crate::document::{BillingDocument, DocumentMeta};
use crate::error::BillingError;
use crate::line_item::LineItem;
use crate::tax::{DiscountLayer, TaxLayer};

verus! {

/// The outcome of pricing: something billable, or a stated reason there is not.
#[derive(Debug, Clone, PartialEq, Eq)]
pub enum Billing<T, R> {
    /// There is something to bill.
    Billable(T),
    /// There is nothing to bill, and this is why. Not an error.
    NotBillable(R),
}

/// The positions-or-reason outcome of [`Tariff::line_items`].
pub type Positions<R> = Billing<Vec<LineItem>, R>;

/// The document-or-reason outcome of [`TariffBilling::try_bill`].
pub type Billed<R> = Billing<BillingDocument, R>;

impl<T, R> Billing<T, R> {
    /// Whether there is something to bill.
    pub fn is_billable(&self) -> (r: bool)
        ensures
            r == (self is Billable),
    {
        match self {
            Billing::Billable(_) => true,
            Billing::NotBillable(_) => false,
        }
    }

    /// The billable value, if any.
    pub fn billable(&self) -> (r: Option<&T>)
        ensures
            match self {
                Billing::Billable(t) => r == Some(t),
                Billing::NotBillable(_) => r is None,
            },
    {
        match self {
            Billing::Billable(t) => Some(t),
            Billing::NotBillable(_) => None,
        }
    }

    /// The reason nothing is billable, if that is the outcome.
    pub fn reason(&self) -> (r: Option<&R>)
        ensures
            match self {
                Billing::Billable(_) => r is None,
                Billing::NotBillable(x) => r == Some(x),
            },
    {
        match self {
            Billing::Billable(_) => None,
            Billing::NotBillable(x) => Some(x),
        }
    }

    /// Take the billable value, discarding the reason.
    pub fn into_billable(self) -> (r: Option<T>)
        ensures
            match self {
                Billing::Billable(t) => r == Some(t),
                Billing::NotBillable(_) => r is None,
            },
    {
        match self {
            Billing::Billable(t) => Some(t),
            Billing::NotBillable(_) => None,
        }
    }

    /// Transform the billable value, leaving a reason untouched.
    pub fn map<U, F: FnOnce(T) -> U>(self, f: F) -> (r: Billing<U, R>)
        requires
            self matches Billing::Billable(t) ==> f.requires((t,)),
        ensures
            match self {
                Billing::Billable(t) => r matches Billing::Billable(u) && f.ensures((t,), u),
                Billing::NotBillable(x) => r == Billing::<U, R>::NotBillable(x),
            },
    {
        match self {
            Billing::Billable(t) => Billing::Billable(f(t)),
            Billing::NotBillable(x) => Billing::NotBillable(x),
        }
    }

    /// Transform the reason, leaving a billable value untouched.
    pub fn map_reason<S, F: FnOnce(R) -> S>(self, f: F) -> (r: Billing<T, S>)
        requires
            self matches Billing::NotBillable(x) ==> f.requires((x,)),
        ensures
            match self {
                Billing::Billable(t) => r == Billing::<T, S>::Billable(t),
                Billing::NotBillable(x) => r matches Billing::NotBillable(y) && f.ensures((x,), y),
            },
    {
        match self {
            Billing::Billable(t) => Billing::Billable(t),
            Billing::NotBillable(x) => Billing::NotBillable(f(x)),
        }
    }

    /// Convert a reason into an error of the caller's choosing.
    pub fn billable_or_else<E, F: FnOnce(R) -> E>(self, f: F) -> (r: Result<T, E>)
        requires
            self matches Billing::NotBillable(x) ==> f.requires((x,)),
        ensures
            match self {
                Billing::Billable(t) => r == Ok::<T, E>(t),
                Billing::NotBillable(x) => r matches Err(e) && f.ensures((x,), e),
            },
    {
        match self {
            Billing::Billable(t) => Ok(t),
            Billing::NotBillable(x) => Err(f(x)),
        }
    }
}

impl<T> Billing<T, Infallible> {
    /// Unwrap a statically-always-billable outcome: with an `Infallible` reason
    /// the `NotBillable` variant cannot be built, which the precondition states
    /// for the verifier.
    pub fn into_inner(self) -> (t: T)
        requires
            self is Billable,
        ensures
            self matches Billing::Billable(x) && t == x,
    {
        match self {
            Billing::Billable(t) => t,
        }
    }
}

impl<R> From<Vec<LineItem>> for Billing<Vec<LineItem>, R> {
    /// Positions are billable.
    fn from(items: Vec<LineItem>) -> (b: Billing<Vec<LineItem>, R>) {
        Billing::Billable(items)
    }
}

impl<R> vstd::std_specs::convert::FromSpecImpl<Vec<LineItem>> for Billing<Vec<LineItem>, R> {
    open spec fn obeys_from_spec() -> bool {
        true
    }

    open spec fn from_spec(items: Vec<LineItem>) -> Billing<Vec<LineItem>, R> {
        Billing::Billable(items)
    }
}

impl<R> From<BillingDocument> for Billing<BillingDocument, R> {
    /// A document is billable.
    fn from(doc: BillingDocument) -> (b: Billing<BillingDocument, R>) {
        Billing::Billable(doc)
    }
}

impl<R> vstd::std_specs::convert::FromSpecImpl<BillingDocument> for Billing<BillingDocument, R> {
    open spec fn obeys_from_spec() -> bool {
        true
    }

    open spec fn from_spec(doc: BillingDocument) -> Billing<BillingDocument, R> {
        Billing::Billable(doc)
    }
}

/// Adapt a domain to the billing engine: usage in, positions (or the reason
/// there are none) out, with the tax and discount layers to apply.
pub trait Tariff {
    /// Domain-specific usage input.
    type Usage;
    /// Domain-specific error, for things that went wrong.
    type Error;
    /// Domain-specific reason there is nothing to bill.
    type NotBillable;

    /// The positions for `usage`, or the reason there are none.
    fn line_items(&self, usage: &Self::Usage) -> Result<Billing<Vec<LineItem>, Self::NotBillable>, Self::Error>;

    /// Tax layers, in the order they apply; none by default.
    fn tax_layers(&self) -> Vec<Box<dyn TaxLayer>> {
        Vec::new()
    }

    /// Discount layers, applied before tax; none by default.
    fn discount_layers(&self) -> Vec<Box<dyn DiscountLayer>> {
        Vec::new()
    }
}

/// Billing with a [`Tariff`]: every tariff has it.
pub trait TariffBilling: Tariff {
    /// The document for `usage` under `meta`, or the reason there is none:
    /// the builder loaded from this tariff, then built.
    fn try_bill(&self, meta: DocumentMeta, usage: &Self::Usage) -> (r: Result<Billing<BillingDocument, Self::NotBillable>, BillingError>)
        where Self: Sized, Self::Error: Into<BillingError>,
        ensures
            r matches Ok(Billing::Billable(d)) ==> assembled_from(d, meta, None) && d.doc_valid(),
            r matches Ok(Billing::Billable(d)) ==> exists|
                p: Vec<LineItem>,
                x: Vec<Box<dyn TaxLayer>>,
                c: Vec<Box<dyn DiscountLayer>>,
            |
                {
                    &&& call_ensures(
                        Self::line_items,
                        (self, usage),
                        Ok::<Billing<Vec<LineItem>, Self::NotBillable>, Self::Error>(Billing::Billable(p)),
                    )
                    &&& call_ensures(Self::tax_layers, (self,), x)
                    &&& call_ensures(Self::discount_layers, (self,), c)
                    &&& layered(d, p@, x@, c@, None)
                },
            r matches Ok(Billing::NotBillable(y)) ==> call_ensures(
                Self::line_items,
                (self, usage),
                Ok::<Billing<Vec<LineItem>, Self::NotBillable>, Self::Error>(Billing::NotBillable(y)),
            ),
    {
        let loaded = BillingDocumentBuilder::default().meta(meta).try_tariff(self, usage)?;
        let r = build_billable(loaded);
        proof {
            if r is Ok && r->Ok_0 is Billable {
                let d = r->Ok_0->Billable_0;
                let b = loaded->Billable_0;
                assert(assembled(d, meta, b.positions_spec(), b.tax_count() as int, b.discount_count() as int, None));
                let p = choose|p: Vec<LineItem>|
                    call_ensures(
                        Self::line_items,
                        (self, usage),
                        Ok::<Billing<Vec<LineItem>, Self::NotBillable>, Self::Error>(Billing::Billable(p)),
                    ) && p@ == b.positions_spec();
                let x = choose|x: Vec<Box<dyn TaxLayer>>| call_ensures(Self::tax_layers, (self,), x) && x@ == b.tax_layers_spec();
                let c = choose|c: Vec<Box<dyn DiscountLayer>>|
                    call_ensures(Self::discount_layers, (self,), c) && c@ == b.discount_layers_spec();
                assert(layered(d, p@, x@, c@, None));
            }
        }
        r
    }
}

impl<T: Tariff> TariffBilling for T {}

/// A tariff whose positions are already computed: no usage input.
pub trait ScalarTariff {
    /// Domain-specific error, for things that went wrong.
    type Error;
    /// Domain-specific reason there is nothing to bill.
    type NotBillable;

    /// The computed positions, or the reason there are none.
    fn positions(&self) -> Result<Billing<Vec<LineItem>, Self::NotBillable>, Self::Error>;

    /// Tax layers, in the order they apply; none by default.
    fn tax_layers(&self) -> Vec<Box<dyn TaxLayer>> {
        Vec::new()
    }

    /// Discount layers, applied before tax; none by default.
    fn discount_layers(&self) -> Vec<Box<dyn DiscountLayer>> {
        Vec::new()
    }
}

/// Settling with a [`ScalarTariff`]: every scalar tariff has it.
pub trait ScalarSettling: ScalarTariff {
    /// The document under `meta`, or the reason there is none.
    fn try_settle(&self, meta: DocumentMeta) -> (r: Result<Billing<BillingDocument, <Self as ScalarTariff>::NotBillable>, BillingError>)
        where Self: Sized, <Self as ScalarTariff>::Error: Into<BillingError>,
        ensures
            r matches Ok(Billing::Billable(d)) ==> assembled_from(d, meta, None) && d.doc_valid(),
    {
        TariffBilling::try_bill(self, meta, &())
    }
}

impl<T: ScalarTariff> ScalarSettling for T {}

/// Billing for tariffs that always bill: no reason to carry.
pub trait AlwaysBills: TariffBilling + Tariff<NotBillable = Infallible> {
    /// The document for `usage` under `meta`.
    fn bill(&self, meta: DocumentMeta, usage: &Self::Usage) -> (r: Result<BillingDocument, BillingError>)
        where Self: Sized, Self::Error: Into<BillingError>,
        ensures
            r matches Ok(d) ==> assembled_from(d, meta, None) && d.doc_valid(),
            r matches Ok(d) ==> exists|p: Vec<LineItem>, x: Vec<Box<dyn TaxLayer>>, c: Vec<Box<dyn DiscountLayer>>|
                {
                    &&& call_ensures(
                        Self::line_items,
                        (self, usage),
                        Ok::<Billing<Vec<LineItem>, Infallible>, Self::Error>(Billing::Billable(p)),
                    )
                    &&& call_ensures(Self::tax_layers, (self,), x)
                    &&& call_ensures(Self::discount_layers, (self,), c)
                    &&& layered(d, p@, x@, c@, None)
                },
    {
        let outcome = self.try_bill(meta, usage)?;
        match outcome {
            Billing::Billable(d) => Ok(d),
            // `Infallible` has no values: this arm never runs.
            Billing::NotBillable(_) => Err(BillingError::invalid_input("an always-billing tariff declined to bill")),
        }
    }
}

impl<T: Tariff<NotBillable = Infallible>> AlwaysBills for T {}

/// Settling for scalar tariffs that always bill.
pub trait AlwaysSettles: ScalarSettling + ScalarTariff<NotBillable = Infallible> {
    /// The document under `meta`.
    fn settle(&self, meta: DocumentMeta) -> (r: Result<BillingDocument, BillingError>)
        where Self: Sized, <Self as ScalarTariff>::Error: Into<BillingError>,
        ensures
            r matches Ok(d) ==> assembled_from(d, meta, None) && d.doc_valid(),
    {
        let outcome = self.try_settle(meta)?;
        match outcome {
            Billing::Billable(d) => Ok(d),
            // `Infallible` has no values: this arm never runs.
            Billing::NotBillable(_) => Err(BillingError::invalid_input("an always-billing tariff declined to bill")),
        }
    }
}

impl<T: ScalarTariff<NotBillable = Infallible>> AlwaysSettles for T {}

impl<T: ScalarTariff> Tariff for T {
    type Usage = ();
    type Error = <T as ScalarTariff>::Error;
    type NotBillable = <T as ScalarTariff>::NotBillable;

    fn line_items(&self, usage: &()) -> Result<Billing<Vec<LineItem>, Self::NotBillable>, Self::Error> {
        self.positions()
    }

    fn tax_layers(&self) -> Vec<Box<dyn TaxLayer>> {
        ScalarTariff::tax_layers(self)
    }

    fn discount_layers(&self) -> Vec<Box<dyn DiscountLayer>> {
        ScalarTariff::discount_layers(self)
    }
}

/// Build the builder a tariff's answer loaded, passing a reason on: a
/// loaded builder gives what [`BillingDocumentBuilder::build`] gives, as a
/// billable outcome.
pub fn build_billable<R>(outcome: Billing<BillingDocumentBuilder, R>) -> (r: Result<Billing<BillingDocument, R>, BillingError>)
    ensures
        match outcome {
            Billing::Billable(b) => {
                &&& r matches Ok(x) ==> x is Billable
                &&& r matches Ok(Billing::Billable(d)) ==> assembled(
                    d,
                    b.meta_spec(),
                    b.positions_spec(),
                    b.tax_count() as int,
                    b.discount_count() as int,
                    b.scale_spec(),
                ) && layered(d, b.positions_spec(), b.tax_layers_spec(), b.discount_layers_spec(), b.scale_spec())
                    && d.doc_valid()
                &&& (b.tax_count() == 0 && b.discount_count() == 0) ==> (r is Ok <==> plain_ok(
                    b.positions_spec(),
                    b.scale_spec(),
                ))
            },
            Billing::NotBillable(x) => r == Ok::<Billing<BillingDocument, R>, BillingError>(Billing::NotBillable(x)),
        },
{
    match outcome {
        Billing::Billable(b) => Ok(Billing::Billable(b.build()?)),
        Billing::NotBillable(x) => Ok(Billing::NotBillable(x)),
    }
}

/// What a tariff answers before it is loaded: its positions with its tax and
/// discount layers, or its reason, or its error.
pub type TariffAnswer<R, E> = Result<Billing<(Vec<LineItem>, Vec<Box<dyn TaxLayer>>, Vec<Box<dyn DiscountLayer>>), R>, E>;

impl BillingDocumentBuilder {
    /// Load a tariff's answer: its positions and layers replace any set
    /// before, header and scale kept; its reason is passed on; its error
    /// becomes a [`BillingError`].
    pub fn load_answer<R, E: Into<BillingError>>(self, answer: TariffAnswer<R, E>) -> (r: Result<
        Billing<BillingDocumentBuilder, R>,
        BillingError,
    >)
        ensures
            match answer {
                Ok(Billing::Billable((p, t, d))) => r matches Ok(Billing::Billable(b)) && b.meta_spec() == self.meta_spec()
                    && b.scale_spec() == self.scale_spec() && b.positions_spec() == p@ && b.tax_count() == t@.len()
                    && b.discount_count() == d@.len() && b.tax_layers_spec() == t@ && b.discount_layers_spec() == d@,
                Ok(Billing::NotBillable(x)) => r == Ok::<Billing<BillingDocumentBuilder, R>, BillingError>(
                    Billing::NotBillable(x),
                ),
                Err(_) => r is Err,
            },
    {
        match answer {
            Ok(Billing::Billable((positions, taxes, discounts))) => Ok(
                Billing::Billable(self.replace_contents(positions, taxes, discounts)),
            ),
            Ok(Billing::NotBillable(reason)) => Ok(Billing::NotBillable(reason)),
            Err(e) => Err(e.into()),
        }
    }

    /// Load positions and layers from `tariff` for `usage`, replacing any set
    /// before; the tariff's reason when it declines to bill, its error (as a
    /// [`BillingError`]) when it fails. Header and scale are kept. The loaded
    /// positions, tax layers and discount layers are what the tariff's own
    /// `line_items`, `tax_layers` and `discount_layers` return.
    pub fn try_tariff<T: Tariff>(self, tariff: &T, usage: &T::Usage) -> (r: Result<Billing<BillingDocumentBuilder, T::NotBillable>, BillingError>)
        where T::Error: Into<BillingError>,
        ensures
            r matches Ok(Billing::Billable(b)) ==> {
                &&& b.meta_spec() == self.meta_spec() && b.scale_spec() == self.scale_spec()
                &&& exists|p: Vec<LineItem>|
                    call_ensures(
                        T::line_items,
                        (tariff, usage),
                        Ok::<Billing<Vec<LineItem>, T::NotBillable>, T::Error>(Billing::Billable(p)),
                    ) && p@ == b.positions_spec()
                &&& exists|x: Vec<Box<dyn TaxLayer>>| call_ensures(T::tax_layers, (tariff,), x) && x@ == b.tax_layers_spec()
                &&& exists|d: Vec<Box<dyn DiscountLayer>>|
                    call_ensures(T::discount_layers, (tariff,), d) && d@ == b.discount_layers_spec()
            },
            r matches Ok(Billing::NotBillable(x)) ==> call_ensures(
                T::line_items,
                (tariff, usage),
                Ok::<Billing<Vec<LineItem>, T::NotBillable>, T::Error>(Billing::NotBillable(x)),
            ),
    {
        let answer = match tariff.line_items(usage) {
            Ok(Billing::Billable(items)) => Ok(Billing::Billable((items, tariff.tax_layers(), tariff.discount_layers()))),
            Ok(Billing::NotBillable(reason)) => Ok(Billing::NotBillable(reason)),
            Err(e) => Err(e),
        };
        self.load_answer(answer)
    }

    /// Load positions and layers from a tariff that always bills.
    pub fn tariff<T: Tariff<NotBillable = Infallible>>(self, tariff: &T, usage: &T::Usage) -> (r: Result<BillingDocumentBuilder, BillingError>)
        where T::Error: Into<BillingError>,
        ensures
            r matches Ok(b) ==> {
                &&& b.meta_spec() == self.meta_spec() && b.scale_spec() == self.scale_spec()
                &&& exists|p: Vec<LineItem>|
                    call_ensures(
                        T::line_items,
                        (tariff, usage),
                        Ok::<Billing<Vec<LineItem>, Infallible>, T::Error>(Billing::Billable(p)),
                    ) && p@ == b.positions_spec()
                &&& exists|x: Vec<Box<dyn TaxLayer>>| call_ensures(T::tax_layers, (tariff,), x) && x@ == b.tax_layers_spec()
                &&& exists|c: Vec<Box<dyn DiscountLayer>>|
                    call_ensures(T::discount_layers, (tariff,), c) && c@ == b.discount_layers_spec()
            },
    {
        match self.try_tariff(tariff, usage) {
            Ok(Billing::Billable(b)) => Ok(b),
            Err(e) => Err(e),
        }
    }
}

} // verus!
