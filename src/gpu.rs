//! Device records built from the device catalog, and the invocation that
//! runs a command on one of them.
use crate::text::{contains_text, normalize_slot, normalized_slot, occurs_in};
use crate::vendor::{classify, vendor_of_driver, Vendor};
use crate::Error;
use colored::{ColoredString, Colorize};
use vstd::prelude::*;
use vstd::string::StringExecFns;

verus! {

/// What the device catalog reports of one device.
pub struct DeviceInfo {
    /// The bound kernel driver, if any.
    pub driver: Option<String>,
    /// The model name from the hardware database, if any.
    pub model: Option<String>,
    /// The PCI slot name, as the catalog writes it.
    pub slot: Option<String>,
    /// Every property of the device, for display.
    pub properties: Vec<(String, String)>,
}

/// A graphics device bound to a driver of a known vendor.
pub struct GPU {
    pub vendor: Vendor,
    /// Model name; empty when the catalog has none.
    pub name: String,
    /// Whether the model name marks the device as integrated.
    pub integrated: bool,
    /// The PCI slot name, as the catalog writes it.
    pub slot: Option<String>,
    /// Every property of the device, for display.
    pub properties: Vec<(String, String)>,
}

/// The mathematical content of a `GPU`.
pub struct GpuView {
    pub vendor: Vendor,
    pub name: Seq<char>,
    pub integrated: bool,
    pub slot: Option<Seq<char>>,
    pub properties: Seq<(Seq<char>, Seq<char>)>,
}

pub open spec fn opt_text(o: Option<String>) -> Option<Seq<char>> {
    match o {
        Some(s) => Some(s@),
        None => None,
    }
}

impl View for GPU {
    type V = GpuView;

    open spec fn view(&self) -> GpuView {
        GpuView {
            vendor: self.vendor,
            name: self.name@,
            integrated: self.integrated,
            slot: opt_text(self.slot),
            properties: text_pairs(self.properties@),
        }
    }
}

/// Declares `colored::ColoredString`, text together with how to print it.
#[verifier::external_type_specification]
#[verifier::external_body]
pub struct ExColoredString(ColoredString);

/// Relies on `colored::Colorize::green`: the text, printed in green.
#[verifier::external_body]
fn green(s: &str) -> (r: ColoredString) {
    s.green()
}

/// Relies on `colored::Colorize::red`: the text, printed in red.
#[verifier::external_body]
fn red(s: &str) -> (r: ColoredString) {
    s.red()
}

/// Relies on `colored::Colorize::blue`: the text, printed in blue.
#[verifier::external_body]
fn blue(s: &str) -> (r: ColoredString) {
    s.blue()
}

/// What `str::to_lowercase` returns for a string.
pub uninterp spec fn lower_of(s: Seq<char>) -> Seq<char>;

/// Relies on `str::to_lowercase`: its result depends on the characters alone,
/// and the empty string stays empty.
#[verifier::external_body]
fn lowercase(s: &str) -> (r: String)
    ensures
        r@ == lower_of(s@),
        s@.len() == 0 ==> r@.len() == 0,
{
    s.to_lowercase()
}

/// Whether a model name marks an integrated device: its lower-case form
/// contains "integrated". A heuristic, not a hardware query.
pub open spec fn integrated_name(name: Seq<char>) -> bool {
    occurs_in(lower_of(name), "integrated"@)
}

/// Whether an already lower-cased model name contains "integrated".
pub fn mentions_integrated(lowered: &str) -> (r: bool)
    ensures
        r == occurs_in(lowered@, "integrated"@),
{
    contains_text(lowered, "integrated")
}

/// The integrated-device heuristic on a model name.
pub fn is_integrated(name: &str) -> (r: bool)
    ensures
        r == integrated_name(name@),
{
    let lowered = lowercase(name);
    mentions_integrated(lowered.as_str())
}

/// The record built from one catalog entry, or none when the device has no
/// driver or its driver belongs to no known vendor.
pub open spec fn describe(d: DeviceInfo) -> Option<GpuView> {
    match d.driver {
        None => None,
        Some(drv) => match vendor_of_driver(drv@) {
            None => None,
            Some(v) => {
                let name = match d.model {
                    Some(m) => m@,
                    None => Seq::<char>::empty(),
                };
                Some(
                    GpuView {
                        vendor: v,
                        name: name,
                        integrated: integrated_name(name),
                        slot: opt_text(d.slot),
                        properties: text_pairs(d.properties@),
                    },
                )
            },
        },
    }
}

/// The candidate records of a catalog, in catalog order.
pub open spec fn candidates(ds: Seq<DeviceInfo>) -> Seq<GpuView>
    decreases ds.len(),
{
    if ds.len() == 0 {
        Seq::empty()
    } else {
        let rest = candidates(ds.drop_last());
        match describe(ds.last()) {
            Some(g) => rest.push(g),
            None => rest,
        }
    }
}

/// Whether a catalog entry has a driver of a known vendor.
pub open spec fn classifiable(d: DeviceInfo) -> bool {
    &&& d.driver is Some
    &&& vendor_of_driver(d.driver->Some_0@) is Some
}

/// How many entries of a catalog are classifiable.
pub open spec fn count_classifiable(ds: Seq<DeviceInfo>) -> nat
    decreases ds.len(),
{
    if ds.len() == 0 {
        0
    } else {
        count_classifiable(ds.drop_last()) + if classifiable(ds.last()) {
            1nat
        } else {
            0nat
        }
    }
}

pub open spec fn views(gs: Seq<GPU>) -> Seq<GpuView> {
    gs.map_values(|g: GPU| g@)
}

pub open spec fn texts(ss: Seq<String>) -> Seq<Seq<char>> {
    ss.map_values(|s: String| s@)
}

/// There is one candidate per classifiable catalog entry, so discovery fails
/// exactly when no entry is classifiable.
pub proof fn lemma_candidate_count(ds: Seq<DeviceInfo>)
    ensures
        candidates(ds).len() == count_classifiable(ds),
        count_classifiable(ds) == 0 <==> candidates(ds).len() == 0,
    decreases ds.len(),
{
    if ds.len() > 0 {
        lemma_candidate_count(ds.drop_last());
    }
}

fn copy_text(o: &Option<String>) -> (r: Option<String>)
    ensures
        opt_text(r) == opt_text(*o),
{
    match o {
        Some(s) => Some(s.clone()),
        None => None,
    }
}

fn copy_pairs(v: &Vec<(String, String)>) -> (r: Vec<(String, String)>)
    ensures
        text_pairs(r@) == text_pairs(v@),
{
    let mut out: Vec<(String, String)> = Vec::new();
    let mut i: usize = 0;
    while i < v.len()
        invariant
            i <= v@.len(),
            text_pairs(out@) == text_pairs(v@.subrange(0, i as int)),
        decreases v@.len() - i,
    {
        let ghost before = text_pairs(out@);
        let p = (v[i].0.clone(), v[i].1.clone());
        out.push(p);
        assert(text_pairs(out@) =~= before.push((p.0@, p.1@)));
        assert(text_pairs(v@.subrange(0, i + 1)) =~= text_pairs(v@.subrange(0, i as int)).push(
            (v@[i as int].0@, v@[i as int].1@),
        ));
        i = i + 1;
    }
    assert(v@.subrange(0, v@.len() as int) =~= v@);
    out
}

impl GPU {
    /// Builds the record of one catalog entry; none when the entry has no
    /// driver or its driver belongs to no known vendor.
    pub fn build(d: &DeviceInfo) -> (r: Option<GPU>)
        ensures
            match r {
                Some(g) => describe(*d) == Some(g@),
                None => describe(*d) is None,
            },
    {
        let vendor = match &d.driver {
            None => return None,
            Some(drv) => match classify(drv.as_str()) {
                None => return None,
                Some(v) => v,
            },
        };
        let name = match &d.model {
            Some(m) => m.clone(),
            None => String::new(),
        };
        let integrated = is_integrated(name.as_str());
        let g = GPU {
            vendor,
            name,
            integrated,
            slot: copy_text(&d.slot),
            properties: copy_pairs(&d.properties),
        };
        Some(g)
    }

    /// The model name in the vendor's colour: green for NVIDIA, red for
    /// AMD, blue for Intel.
    pub fn name_fancy(&self) -> ColoredString {
        match self.vendor {
            Vendor::NVIDIA => green(self.name.as_str()),
            Vendor::AMD => red(self.name.as_str()),
            Vendor::Intel => blue(self.name.as_str()),
        }
    }

    /// The bus address in the form that environment variables take: `:` and
    /// `.` replaced by `_`; none when the catalog gave no slot.
    pub fn pci_slot(&self) -> (r: Option<String>)
        ensures
            match self@.slot {
                Some(s) => r is Some && r->Some_0@ == normalized_slot(s),
                None => r is None,
            },
    {
        match &self.slot {
            Some(s) => Some(normalize_slot(s.as_str())),
            None => None,
        }
    }
}

/// The child process to start: program, arguments and the environment
/// variables to add or override, in order.
pub struct Invocation {
    pub program: String,
    pub args: Vec<String>,
    pub env: Vec<(String, String)>,
}

pub struct InvocationView {
    pub program: Seq<char>,
    pub args: Seq<Seq<char>>,
    pub env: Seq<(Seq<char>, Seq<char>)>,
}

pub open spec fn text_pairs(e: Seq<(String, String)>) -> Seq<(Seq<char>, Seq<char>)> {
    e.map_values(|p: (String, String)| (p.0@, p.1@))
}

impl View for Invocation {
    type V = InvocationView;

    open spec fn view(&self) -> InvocationView {
        InvocationView { program: self.program@, args: texts(self.args@), env: text_pairs(self.env@) }
    }
}

/// The variables that point a vendor's graphics stack at the device whose
/// normalized bus address is `pci`.
pub open spec fn env_for(v: Vendor, pci: Seq<char>) -> Seq<(Seq<char>, Seq<char>)> {
    match v {
        Vendor::NVIDIA => seq![
            ("DRI_PRIME"@, "pci-"@ + pci),
            ("__VK_LAYER_NV_optimus"@, "NVIDIA_only"@),
            ("__GLX_VENDOR_LIBRARY_NAME"@, "nvidia"@),
        ],
        Vendor::AMD => seq![("DRI_PRIME"@, "pci-"@ + pci)],
        Vendor::Intel => Seq::empty(),
    }
}

/// The invocation of a non-empty command line on a device that has a slot.
pub open spec fn invocation_for(g: GpuView, command: Seq<Seq<char>>) -> InvocationView {
    InvocationView {
        program: command[0],
        args: command.drop_first(),
        env: env_for(g.vendor, normalized_slot(g.slot->Some_0)),
    }
}

fn pair(k: &str, v: String) -> (r: (String, String))
    ensures
        r.0@ == k@,
        r.1@ == v@,
{
    (String::from_str(k), v)
}

impl GPU {
    /// Composes the invocation of `command` on this device: the first word
    /// is the program, the others its arguments, and the vendor's variables
    /// are added. An empty command gives `EmptyCommand`; a device without a
    /// bus address gives `InvalidDevice`.
    pub fn prepare_run(&self, command: Vec<String>) -> (r: Result<Invocation, Error>)
        ensures
            command@.len() == 0 ==> r is Err && r->Err_0 is EmptyCommand,
            command@.len() > 0 && self@.slot is None ==> r is Err && r->Err_0 is InvalidDevice,
            command@.len() > 0 && self@.slot is Some ==> r is Ok && r->Ok_0@ == invocation_for(
                self@,
                texts(command@),
            ),
    {
        if command.len() == 0 {
            return Err(Error::EmptyCommand);
        }
        let pci = match self.pci_slot() {
            Some(p) => p,
            None => return Err(Error::InvalidDevice),
        };
        let mut args = command;
        let ghost whole = args@;
        let program = args.remove(0);
        assert(texts(args@) =~= texts(whole).drop_first());
        let mut env: Vec<(String, String)> = Vec::new();
        match self.vendor {
            Vendor::NVIDIA => {
                let mut dri = String::from_str("pci-");
                dri.append(pci.as_str());
                env.push(pair("DRI_PRIME", dri));
                env.push(pair("__VK_LAYER_NV_optimus", String::from_str("NVIDIA_only")));
                env.push(pair("__GLX_VENDOR_LIBRARY_NAME", String::from_str("nvidia")));
            },
            Vendor::AMD => {
                let mut dri = String::from_str("pci-");
                dri.append(pci.as_str());
                env.push(pair("DRI_PRIME", dri));
            },
            Vendor::Intel => {},
        }
        let inv = Invocation { program, args, env };
        assert(inv@.env =~= env_for(self.vendor, normalized_slot(self@.slot->Some_0)));
        assert(inv@ == invocation_for(self@, texts(whole)));
        Ok(inv)
    }
}

/// Scans the catalog and keeps the entries that build into records, in
/// catalog order; fails with `DeviceNotFound` when none does.
pub fn find_gpus(devices: &Vec<DeviceInfo>) -> (r: Result<Vec<GPU>, Error>)
    ensures
        candidates(devices@).len() == 0 <==> (r is Err && r->Err_0 is DeviceNotFound),
        r is Ok ==> views(r->Ok_0@) == candidates(devices@),
        r is Ok || (r is Err && r->Err_0 is DeviceNotFound),
{
    let mut gpus: Vec<GPU> = Vec::new();
    let mut i: usize = 0;
    while i < devices.len()
        invariant
            i <= devices@.len(),
            views(gpus@) == candidates(devices@.subrange(0, i as int)),
        decreases devices@.len() - i,
    {
        let ghost before = gpus@;
        assert(devices@.subrange(0, i + 1).drop_last() =~= devices@.subrange(0, i as int));
        match GPU::build(&devices[i]) {
            Some(g) => {
                gpus.push(g);
                assert(views(gpus@) =~= views(before).push(g@));
            },
            None => {},
        }
        i = i + 1;
    }
    assert(devices@.subrange(0, devices@.len() as int) =~= devices@);
    if gpus.len() > 0 {
        Ok(gpus)
    } else {
        Err(Error::DeviceNotFound)
    }
}

} // verus!
