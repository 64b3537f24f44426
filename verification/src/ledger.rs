//! A parsed ledger, and loading it: the plugins it names, its default
//! booking method and tolerances, and its directives in turn.
use vstd::prelude::*;

use crate::decimal::Dec;
use crate::loader::{
    collected, fresh_loader, plugins_of, DirectiveInput, InternalPlugins, LoadError, LoadSuccess, LoadWarning, Loader,
};
use crate::tolerance::{tolerance_from, LimaTolerance};
use crate::types::{is_supported_method, supported_method, Booking};

verus! {

/// What loading reads of a parsed ledger: its directives in order, the
/// names of the plugins it asks for, its default booking method if it sets
/// one, and its tolerance options.
pub struct ParsedLedger {
    pub directives: Vec<DirectiveInput>,
    pub plugin_names: Vec<String>,
    pub booking_method: Option<Booking>,
    pub tolerance_defaults: Vec<(Option<String>, Dec)>,
    pub tolerance_multiplier: Option<Dec>,
}

/// The default booking method: the ledger's, where given and supported,
/// else `Strict`.
pub open spec fn default_method(booking: Option<Booking>) -> Booking {
    match booking {
        Some(b) => if supported_method(b) {
            b
        } else {
            Booking::Strict
        },
        None => Booking::Strict,
    }
}

/// The warnings about the ledger itself: one for each plugin not known, in
/// order, then one for a default booking method not supported.
pub open spec fn ledger_warnings(unknown: Seq<usize>, booking: Option<Booking>) -> Seq<LoadWarning> {
    unknown.map_values(|i: usize| LoadWarning::UnknownPlugin { plugin: i }) + match booking {
        Some(b) => if supported_method(b) {
            Seq::empty()
        } else {
            seq![LoadWarning::UnsupportedDefaultBooking { booking: b }]
        },
        None => Seq::empty(),
    }
}

/// A copy of the tolerance defaults.
fn copy_defaults(defaults: &Vec<(Option<String>, Dec)>) -> (r: Vec<(Option<String>, Dec)>)
    ensures
        r@ == defaults@,
{
    let mut r: Vec<(Option<String>, Dec)> = Vec::new();
    let mut i: usize = 0;
    while i < defaults.len()
        invariant
            i <= defaults@.len(),
            r@ == defaults@.take(i as int),
        decreases defaults@.len() - i,
    {
        let c = match &defaults[i].0 {
            Some(c) => Some(c.clone()),
            None => None,
        };
        r.push((c, defaults[i].1));
        assert(r@ =~= defaults@.take(i + 1));
        i = i + 1;
    }
    assert(defaults@.take(i as int) =~= defaults@);
    r
}

/// Load a parsed ledger: its internal plugins are those it names (see
/// [plugins_of]); its default booking method is its own where supported,
/// else `Strict` (see [default_method]); its tolerances are its options';
/// and its directives are loaded in turn from a loader with nothing loaded
/// (see [collected]).  Alongside, the warnings about the ledger itself (see
/// [ledger_warnings]).
pub fn load_ledger(ledger: &ParsedLedger) -> (r: (Result<LoadSuccess, Vec<LoadError>>, Vec<LoadWarning>))
    ensures
        exists|plugins: InternalPlugins, unknown: Seq<usize>, tolerance: LimaTolerance, loader: Loader|
            #![trigger plugins_of(ledger.plugin_names@, plugins, unknown), fresh_loader(loader, default_method(ledger.booking_method), plugins, tolerance)]
            {
                &&& plugins_of(ledger.plugin_names@, plugins, unknown)
                &&& tolerance_from(tolerance, ledger.tolerance_defaults@, ledger.tolerance_multiplier)
                &&& fresh_loader(loader, default_method(ledger.booking_method), plugins, tolerance)
                &&& loader.wf()
                &&& collected(loader, ledger.directives@, r.0)
                &&& r.1@ == ledger_warnings(unknown, ledger.booking_method)
            },
{
    let (plugins, unknown) = InternalPlugins::from_names(&ledger.plugin_names);
    let mut warnings: Vec<LoadWarning> = Vec::new();
    let mut i: usize = 0;
    while i < unknown.len()
        invariant
            i <= unknown@.len(),
            warnings@ == unknown@.take(i as int).map_values(|k: usize| LoadWarning::UnknownPlugin { plugin: k }),
        decreases unknown@.len() - i,
    {
        warnings.push(LoadWarning::UnknownPlugin { plugin: unknown[i] });
        assert(warnings@ =~= unknown@.take(i + 1).map_values(|k: usize| LoadWarning::UnknownPlugin { plugin: k }));
        i = i + 1;
    }
    assert(unknown@.take(i as int) =~= unknown@);
    let default_booking = match ledger.booking_method {
        Some(b) => if is_supported_method(b) {
            b
        } else {
            warnings.push(LoadWarning::UnsupportedDefaultBooking { booking: b });
            Booking::Strict
        },
        None => Booking::Strict,
    };
    assert(warnings@ =~= ledger_warnings(unknown@, ledger.booking_method));
    let tolerance = LimaTolerance::new(copy_defaults(&ledger.tolerance_defaults), ledger.tolerance_multiplier);
    let ghost t = tolerance;
    let loader = Loader::new(default_booking, plugins, tolerance);
    let ghost l = loader;
    let result = loader.collect(&ledger.directives);
    assert(plugins_of(ledger.plugin_names@, plugins, unknown@));
    assert(fresh_loader(l, default_method(ledger.booking_method), plugins, t));
    (result, warnings)
}

} // verus!
