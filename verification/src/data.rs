//! The parsed Liberty data model and its mathematical view. Numeric attribute
//! values are kept as the text items the file holds; turning them into numbers
//! is left to the caller.
use vstd::prelude::*;
use crate::text::texts;

verus! {

/// A lookup table (`cell_rise`, `rise_power`, `vector`, ...): the raw text items
/// of its `index_1/2/3` and `values` lists.
#[derive(Debug)]
pub struct TimingTableData {
    pub name: String,
    pub index_1: Vec<String>,
    pub index_2: Vec<String>,
    pub index_3: Vec<String>,
    pub values: Vec<String>,
    /// The template named in the group header.
    pub template: Option<String>,
    /// CCS only: the text of the last `reference_time` attribute.
    pub reference_time: Option<String>,
    /// CCS only: nested `vector` tables.
    pub vectors: Vec<TimingTableData>,
}

#[derive(Clone, Debug)]
pub struct TimingArcData {
    pub related_pin: Option<String>,
    pub timing_type: Option<String>,
    pub when: Option<String>,
    pub tables: Vec<TimingTableData>,
}

/// An `internal_power` group.
#[derive(Clone, Debug)]
pub struct InternalPowerData {
    pub related_pin: Option<String>,
    pub related_pg_pin: Option<String>,
    pub when: Option<String>,
    pub tables: Vec<TimingTableData>,
}

#[derive(Clone, Debug)]
pub struct PinData {
    pub name: String,
    pub direction: Option<String>,
    pub function: Option<String>,
    pub timing_arcs: Vec<TimingArcData>,
    pub internal_powers: Vec<InternalPowerData>,
    /// Ordered `(name, value)` simple and complex attributes.
    pub attributes: Vec<(String, String)>,
}

#[derive(Clone, Debug)]
pub struct BusData {
    pub name: String,
    pub direction: Option<String>,
    pub function: Option<String>,
    pub bus_type: Option<String>,
    pub pins: Vec<PinData>,
    pub timing_arcs: Vec<TimingArcData>,
}

#[derive(Clone, Debug)]
pub struct BundleData {
    pub name: String,
    pub direction: Option<String>,
    pub function: Option<String>,
    pub members: Vec<String>,
    pub pins: Vec<PinData>,
    pub timing_arcs: Vec<TimingArcData>,
}

/// A library-level `type (...)` group.
#[derive(Clone, Debug)]
pub struct BusTypeData {
    pub name: String,
    pub attributes: Vec<(String, String)>,
}

/// A CCS `pg_current` group: one `vector` table per (slew, load).
#[derive(Clone, Debug)]
pub struct PgCurrentData {
    pub pg_pin: Option<String>,
    pub vectors: Vec<TimingTableData>,
}

#[derive(Clone, Debug)]
pub struct SwitchingGroupData {
    pub input_switching_condition: Option<String>,
    pub output_switching_condition: Option<String>,
    pub pg_currents: Vec<PgCurrentData>,
}

/// A CCS power `dynamic_current` group.
#[derive(Clone, Debug)]
pub struct DynamicCurrentData {
    pub related_inputs: Option<String>,
    pub related_outputs: Option<String>,
    pub when: Option<String>,
    pub switching_groups: Vec<SwitchingGroupData>,
}

#[derive(Clone, Debug)]
pub struct CellData {
    pub name: String,
    /// The text of the last `area` attribute.
    pub area: Option<String>,
    pub pins: Vec<PinData>,
    pub buses: Vec<BusData>,
    pub bundles: Vec<BundleData>,
    pub attributes: Vec<(String, String)>,
    pub dynamic_currents: Vec<DynamicCurrentData>,
}

/// The axis variables of a lookup-table template.
#[derive(Clone, Debug)]
pub struct TemplateVars {
    pub variable_1: Option<String>,
    pub variable_2: Option<String>,
    pub variable_3: Option<String>,
}

/// A parsed Liberty library.
#[derive(Clone, Debug)]
pub struct Document {
    pub library_name: String,
    pub voltage_unit: Option<String>,
    pub current_unit: Option<String>,
    pub time_unit: Option<String>,
    /// The second argument of `capacitive_load_unit (1, ff)`.
    pub capacitive_load_unit: Option<String>,
    /// `lu_table_template`, `power_lut_template` and `output_current_template`
    /// groups, by name.
    pub templates: Vec<(String, TemplateVars)>,
    /// Ordered library-level simple and complex attributes.
    pub attributes: Vec<(String, String)>,
    /// `normalized_driver_waveform` tables, named by `driver_waveform_name`.
    pub driver_waveforms: Vec<TimingTableData>,
    pub cells: Vec<CellData>,
    pub bus_types: Vec<BusTypeData>,
}

// ---- mathematical forms ----
pub type Text = Seq<char>;

#[verifier::ext_equal]
pub struct SpecTable {
    pub name: Text,
    pub index_1: Seq<Text>,
    pub index_2: Seq<Text>,
    pub index_3: Seq<Text>,
    pub values: Seq<Text>,
    pub template: Option<Text>,
    pub reference_time: Option<Text>,
    pub vectors: Seq<SpecTable>,
}

#[verifier::ext_equal]
pub struct SpecArc {
    pub related_pin: Option<Text>,
    pub timing_type: Option<Text>,
    pub when: Option<Text>,
    pub tables: Seq<SpecTable>,
}

#[verifier::ext_equal]
pub struct SpecPower {
    pub related_pin: Option<Text>,
    pub related_pg_pin: Option<Text>,
    pub when: Option<Text>,
    pub tables: Seq<SpecTable>,
}

#[verifier::ext_equal]
pub struct SpecPin {
    pub name: Text,
    pub direction: Option<Text>,
    pub function: Option<Text>,
    pub timing_arcs: Seq<SpecArc>,
    pub internal_powers: Seq<SpecPower>,
    pub attributes: Seq<(Text, Text)>,
}

#[verifier::ext_equal]
pub struct SpecBus {
    pub name: Text,
    pub direction: Option<Text>,
    pub function: Option<Text>,
    pub bus_type: Option<Text>,
    pub pins: Seq<SpecPin>,
    pub timing_arcs: Seq<SpecArc>,
}

#[verifier::ext_equal]
pub struct SpecBundle {
    pub name: Text,
    pub direction: Option<Text>,
    pub function: Option<Text>,
    pub members: Seq<Text>,
    pub pins: Seq<SpecPin>,
    pub timing_arcs: Seq<SpecArc>,
}

#[verifier::ext_equal]
pub struct SpecBusType {
    pub name: Text,
    pub attributes: Seq<(Text, Text)>,
}

#[verifier::ext_equal]
pub struct SpecPgCurrent {
    pub pg_pin: Option<Text>,
    pub vectors: Seq<SpecTable>,
}

#[verifier::ext_equal]
pub struct SpecSwitching {
    pub input_switching_condition: Option<Text>,
    pub output_switching_condition: Option<Text>,
    pub pg_currents: Seq<SpecPgCurrent>,
}

#[verifier::ext_equal]
pub struct SpecDynamic {
    pub related_inputs: Option<Text>,
    pub related_outputs: Option<Text>,
    pub when: Option<Text>,
    pub switching_groups: Seq<SpecSwitching>,
}

#[verifier::ext_equal]
pub struct SpecCell {
    pub name: Text,
    pub area: Option<Text>,
    pub pins: Seq<SpecPin>,
    pub buses: Seq<SpecBus>,
    pub bundles: Seq<SpecBundle>,
    pub attributes: Seq<(Text, Text)>,
    pub dynamic_currents: Seq<SpecDynamic>,
}

#[verifier::ext_equal]
pub struct SpecTemplate {
    pub variable_1: Option<Text>,
    pub variable_2: Option<Text>,
    pub variable_3: Option<Text>,
}

#[verifier::ext_equal]
pub struct SpecDoc {
    pub library_name: Text,
    pub voltage_unit: Option<Text>,
    pub current_unit: Option<Text>,
    pub time_unit: Option<Text>,
    pub capacitive_load_unit: Option<Text>,
    pub templates: Seq<(Text, SpecTemplate)>,
    pub attributes: Seq<(Text, Text)>,
    pub driver_waveforms: Seq<SpecTable>,
    pub cells: Seq<SpecCell>,
    pub bus_types: Seq<SpecBusType>,
}

/// The view of an optional string.
pub open spec fn opt_text(o: Option<String>) -> Option<Text> {
    match o {
        Some(s) => Some(s@),
        None => None,
    }
}

/// The views of `(name, value)` string pairs.
pub open spec fn pairs(v: Seq<(String, String)>) -> Seq<(Text, Text)> {
    v.map_values(|p: (String, String)| (p.0@, p.1@))
}

pub open spec fn empty_table() -> SpecTable {
    SpecTable {
        name: Seq::empty(),
        index_1: Seq::empty(),
        index_2: Seq::empty(),
        index_3: Seq::empty(),
        values: Seq::empty(),
        template: None,
        reference_time: None,
        vectors: Seq::empty(),
    }
}

/// The view of a table, its nested `vector` tables included.
pub open spec fn table_view(t: TimingTableData) -> SpecTable
    decreases t,
{
    SpecTable {
        name: t.name@,
        index_1: texts(t.index_1@),
        index_2: texts(t.index_2@),
        index_3: texts(t.index_3@),
        values: texts(t.values@),
        template: opt_text(t.template),
        reference_time: opt_text(t.reference_time),
        vectors: Seq::new(
            t.vectors@.len(),
            |i: int|
                if 0 <= i < t.vectors@.len() {
                    table_view(t.vectors@[i])
                } else {
                    empty_table()
                },
        ),
    }
}

impl View for TimingTableData {
    type V = SpecTable;

    open spec fn view(&self) -> SpecTable {
        table_view(*self)
    }
}

/// The views of a vector of tables.
pub open spec fn tables(v: Seq<TimingTableData>) -> Seq<SpecTable> {
    v.map_values(|t: TimingTableData| t@)
}

impl View for TimingArcData {
    type V = SpecArc;

    open spec fn view(&self) -> SpecArc {
        SpecArc {
            related_pin: opt_text(self.related_pin),
            timing_type: opt_text(self.timing_type),
            when: opt_text(self.when),
            tables: tables(self.tables@),
        }
    }
}

pub open spec fn arcs(v: Seq<TimingArcData>) -> Seq<SpecArc> {
    v.map_values(|a: TimingArcData| a@)
}

impl View for InternalPowerData {
    type V = SpecPower;

    open spec fn view(&self) -> SpecPower {
        SpecPower {
            related_pin: opt_text(self.related_pin),
            related_pg_pin: opt_text(self.related_pg_pin),
            when: opt_text(self.when),
            tables: tables(self.tables@),
        }
    }
}

pub open spec fn powers(v: Seq<InternalPowerData>) -> Seq<SpecPower> {
    v.map_values(|a: InternalPowerData| a@)
}

impl View for PinData {
    type V = SpecPin;

    open spec fn view(&self) -> SpecPin {
        SpecPin {
            name: self.name@,
            direction: opt_text(self.direction),
            function: opt_text(self.function),
            timing_arcs: arcs(self.timing_arcs@),
            internal_powers: powers(self.internal_powers@),
            attributes: pairs(self.attributes@),
        }
    }
}

pub open spec fn pins(v: Seq<PinData>) -> Seq<SpecPin> {
    v.map_values(|a: PinData| a@)
}

impl View for BusData {
    type V = SpecBus;

    open spec fn view(&self) -> SpecBus {
        SpecBus {
            name: self.name@,
            direction: opt_text(self.direction),
            function: opt_text(self.function),
            bus_type: opt_text(self.bus_type),
            pins: pins(self.pins@),
            timing_arcs: arcs(self.timing_arcs@),
        }
    }
}

pub open spec fn buses(v: Seq<BusData>) -> Seq<SpecBus> {
    v.map_values(|a: BusData| a@)
}

impl View for BundleData {
    type V = SpecBundle;

    open spec fn view(&self) -> SpecBundle {
        SpecBundle {
            name: self.name@,
            direction: opt_text(self.direction),
            function: opt_text(self.function),
            members: texts(self.members@),
            pins: pins(self.pins@),
            timing_arcs: arcs(self.timing_arcs@),
        }
    }
}

pub open spec fn bundles(v: Seq<BundleData>) -> Seq<SpecBundle> {
    v.map_values(|a: BundleData| a@)
}

impl View for BusTypeData {
    type V = SpecBusType;

    open spec fn view(&self) -> SpecBusType {
        SpecBusType { name: self.name@, attributes: pairs(self.attributes@) }
    }
}

pub open spec fn bus_types(v: Seq<BusTypeData>) -> Seq<SpecBusType> {
    v.map_values(|a: BusTypeData| a@)
}

impl View for PgCurrentData {
    type V = SpecPgCurrent;

    open spec fn view(&self) -> SpecPgCurrent {
        SpecPgCurrent { pg_pin: opt_text(self.pg_pin), vectors: tables(self.vectors@) }
    }
}

pub open spec fn pg_currents(v: Seq<PgCurrentData>) -> Seq<SpecPgCurrent> {
    v.map_values(|a: PgCurrentData| a@)
}

impl View for SwitchingGroupData {
    type V = SpecSwitching;

    open spec fn view(&self) -> SpecSwitching {
        SpecSwitching {
            input_switching_condition: opt_text(self.input_switching_condition),
            output_switching_condition: opt_text(self.output_switching_condition),
            pg_currents: pg_currents(self.pg_currents@),
        }
    }
}

pub open spec fn switching_groups(v: Seq<SwitchingGroupData>) -> Seq<SpecSwitching> {
    v.map_values(|a: SwitchingGroupData| a@)
}

impl View for DynamicCurrentData {
    type V = SpecDynamic;

    open spec fn view(&self) -> SpecDynamic {
        SpecDynamic {
            related_inputs: opt_text(self.related_inputs),
            related_outputs: opt_text(self.related_outputs),
            when: opt_text(self.when),
            switching_groups: switching_groups(self.switching_groups@),
        }
    }
}

pub open spec fn dynamics(v: Seq<DynamicCurrentData>) -> Seq<SpecDynamic> {
    v.map_values(|a: DynamicCurrentData| a@)
}

impl View for CellData {
    type V = SpecCell;

    open spec fn view(&self) -> SpecCell {
        SpecCell {
            name: self.name@,
            area: opt_text(self.area),
            pins: pins(self.pins@),
            buses: buses(self.buses@),
            bundles: bundles(self.bundles@),
            attributes: pairs(self.attributes@),
            dynamic_currents: dynamics(self.dynamic_currents@),
        }
    }
}

pub open spec fn cells(v: Seq<CellData>) -> Seq<SpecCell> {
    v.map_values(|a: CellData| a@)
}

impl View for TemplateVars {
    type V = SpecTemplate;

    open spec fn view(&self) -> SpecTemplate {
        SpecTemplate {
            variable_1: opt_text(self.variable_1),
            variable_2: opt_text(self.variable_2),
            variable_3: opt_text(self.variable_3),
        }
    }
}

pub open spec fn templates(v: Seq<(String, TemplateVars)>) -> Seq<(Text, SpecTemplate)> {
    v.map_values(|p: (String, TemplateVars)| (p.0@, p.1@))
}

impl View for Document {
    type V = SpecDoc;

    open spec fn view(&self) -> SpecDoc {
        SpecDoc {
            library_name: self.library_name@,
            voltage_unit: opt_text(self.voltage_unit),
            current_unit: opt_text(self.current_unit),
            time_unit: opt_text(self.time_unit),
            capacitive_load_unit: opt_text(self.capacitive_load_unit),
            templates: templates(self.templates@),
            attributes: pairs(self.attributes@),
            driver_waveforms: tables(self.driver_waveforms@),
            cells: cells(self.cells@),
            bus_types: bus_types(self.bus_types@),
        }
    }
}

/// A copy of a list of strings.
pub fn copy_strings(v: &Vec<String>) -> (r: Vec<String>)
    ensures
        texts(r@) == texts(v@),
{
    broadcast use lemma_texts_push;

    let mut r: Vec<String> = Vec::new();
    let mut k: usize = 0;
    while k < v.len()
        invariant
            k <= v@.len(),
            texts(r@) == texts(v@).take(k as int),
        decreases v@.len() - k,
    {
        let ghost r0 = r@;
        let c = v[k].clone();
        r.push(c);
        assert(r@ == r0.push(c));
        assert(texts(r@) == texts(r0).push(c@));
        assert(c@ == texts(v@)[k as int]);
        assert(texts(r@) =~= texts(v@).take(k + 1));
        k = k + 1;
    }
    assert(texts(v@).take(k as int) =~= texts(v@));
    r
}

/// A copy of an optional string.
pub fn clone_opt(o: &Option<String>) -> (r: Option<String>)
    ensures
        opt_text(r) == opt_text(*o),
{
    match o {
        Some(s) => Some(s.clone()),
        None => None,
    }
}

/// A deep copy of a table, its nested tables included.
pub fn copy_table(t: &TimingTableData) -> (r: TimingTableData)
    ensures
        r@ == t@,
    decreases t,
{
    let mut vectors: Vec<TimingTableData> = Vec::new();
    let mut k: usize = 0;
    while k < t.vectors.len()
        invariant
            k <= t.vectors@.len(),
            vectors@.len() == k,
            forall|m: int|
                0 <= m < k ==> #[trigger] table_view(vectors@[m]) == table_view(t.vectors@[m]),
        decreases t.vectors@.len() - k,
    {
        assert(decreases_to!(t => t.vectors));
        let v = copy_table(&t.vectors[k]);
        vectors.push(v);
        k = k + 1;
    }
    let r = TimingTableData {
        name: t.name.clone(),
        index_1: copy_strings(&t.index_1),
        index_2: copy_strings(&t.index_2),
        index_3: copy_strings(&t.index_3),
        values: copy_strings(&t.values),
        template: clone_opt(&t.template),
        reference_time: clone_opt(&t.reference_time),
        vectors,
    };
    assert(r@.vectors.len() == t@.vectors.len());
    assert forall|i: int| 0 <= i < t@.vectors.len() implies r@.vectors[i] == t@.vectors[i] by {
        assert(table_view(r.vectors@[i]) == table_view(t.vectors@[i]));
    }
    assert(r@.vectors =~= t@.vectors);
    r
}

impl Clone for TimingTableData {
    fn clone(&self) -> (r: Self)
        ensures
            r@ == self@,
    {
        copy_table(self)
    }
}

impl TimingTableData {
    /// Appends a nested `vector` table.
    pub fn push_vector(&mut self, t: TimingTableData)
        ensures
            final(self)@ == (SpecTable { vectors: old(self)@.vectors.push(t@), ..old(self)@ }),
    {
        let ghost pv = self.vectors@;
        self.vectors.push(t);
        assert forall|q: int| 0 <= q < pv.len() implies #[trigger] self@.vectors[q] == old(self)@.vectors[q] by {
            assert(self@.vectors[q] == self.vectors@[q]@);
        }
        assert(self@.vectors =~= old(self)@.vectors.push(t@));
    }
}

// ---- views of vectors after a push ----
pub broadcast proof fn lemma_tables_push(s: Seq<TimingTableData>, x: TimingTableData)
    ensures
        #[trigger] tables(s.push(x)) == tables(s).push(x@),
{
    assert(tables(s.push(x)) =~= tables(s).push(x@));
}

pub broadcast proof fn lemma_arcs_push(s: Seq<TimingArcData>, x: TimingArcData)
    ensures
        #[trigger] arcs(s.push(x)) == arcs(s).push(x@),
{
    assert(arcs(s.push(x)) =~= arcs(s).push(x@));
}

pub broadcast proof fn lemma_powers_push(s: Seq<InternalPowerData>, x: InternalPowerData)
    ensures
        #[trigger] powers(s.push(x)) == powers(s).push(x@),
{
    assert(powers(s.push(x)) =~= powers(s).push(x@));
}

pub broadcast proof fn lemma_pins_push(s: Seq<PinData>, x: PinData)
    ensures
        #[trigger] pins(s.push(x)) == pins(s).push(x@),
{
    assert(pins(s.push(x)) =~= pins(s).push(x@));
}

pub broadcast proof fn lemma_buses_push(s: Seq<BusData>, x: BusData)
    ensures
        #[trigger] buses(s.push(x)) == buses(s).push(x@),
{
    assert(buses(s.push(x)) =~= buses(s).push(x@));
}

pub broadcast proof fn lemma_bundles_push(s: Seq<BundleData>, x: BundleData)
    ensures
        #[trigger] bundles(s.push(x)) == bundles(s).push(x@),
{
    assert(bundles(s.push(x)) =~= bundles(s).push(x@));
}

pub broadcast proof fn lemma_bus_types_push(s: Seq<BusTypeData>, x: BusTypeData)
    ensures
        #[trigger] bus_types(s.push(x)) == bus_types(s).push(x@),
{
    assert(bus_types(s.push(x)) =~= bus_types(s).push(x@));
}

pub broadcast proof fn lemma_pg_currents_push(s: Seq<PgCurrentData>, x: PgCurrentData)
    ensures
        #[trigger] pg_currents(s.push(x)) == pg_currents(s).push(x@),
{
    assert(pg_currents(s.push(x)) =~= pg_currents(s).push(x@));
}

pub broadcast proof fn lemma_switching_groups_push(s: Seq<SwitchingGroupData>, x: SwitchingGroupData)
    ensures
        #[trigger] switching_groups(s.push(x)) == switching_groups(s).push(x@),
{
    assert(switching_groups(s.push(x)) =~= switching_groups(s).push(x@));
}

pub broadcast proof fn lemma_dynamics_push(s: Seq<DynamicCurrentData>, x: DynamicCurrentData)
    ensures
        #[trigger] dynamics(s.push(x)) == dynamics(s).push(x@),
{
    assert(dynamics(s.push(x)) =~= dynamics(s).push(x@));
}

pub broadcast proof fn lemma_cells_push(s: Seq<CellData>, x: CellData)
    ensures
        #[trigger] cells(s.push(x)) == cells(s).push(x@),
{
    assert(cells(s.push(x)) =~= cells(s).push(x@));
}

pub broadcast proof fn lemma_templates_push(s: Seq<(String, TemplateVars)>, x: (String, TemplateVars))
    ensures
        #[trigger] templates(s.push(x)) == templates(s).push((x.0@, x.1@)),
{
    assert(templates(s.push(x)) =~= templates(s).push((x.0@, x.1@)));
}

pub broadcast proof fn lemma_pairs_push(s: Seq<(String, String)>, x: (String, String))
    ensures
        #[trigger] pairs(s.push(x)) == pairs(s).push((x.0@, x.1@)),
{
    assert(pairs(s.push(x)) =~= pairs(s).push((x.0@, x.1@)));
}

pub broadcast proof fn lemma_texts_push(s: Seq<String>, x: String)
    ensures
        #[trigger] texts(s.push(x)) == texts(s).push(x@),
{
    assert(texts(s.push(x)) =~= texts(s).push(x@));
}

pub broadcast group group_view_push {
    lemma_tables_push,
    lemma_arcs_push,
    lemma_powers_push,
    lemma_pins_push,
    lemma_buses_push,
    lemma_bundles_push,
    lemma_bus_types_push,
    lemma_pg_currents_push,
    lemma_switching_groups_push,
    lemma_dynamics_push,
    lemma_cells_push,
    lemma_templates_push,
    lemma_pairs_push,
    lemma_texts_push,
}

} // verus!
