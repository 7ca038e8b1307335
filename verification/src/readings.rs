//! The readings that a sampler document carries, before any floating-point conversion.

use crate::document;
use crate::document::{Item, Moment, Tree};
use crate::text;
use vstd::prelude::*;

verus! {

/// A numeric reading as the document gives it.
#[derive(Debug, Clone)]
pub enum Number {
    /// A 64-bit real, by its IEEE 754 bit pattern.
    Real(u64),
    Signed(i64),
    Unsigned(u64),
    /// A numeral that has not been read yet.
    Text(String),
}

/// What a `Number` holds.
pub enum NumberValue {
    Real(u64),
    Signed(i64),
    Unsigned(u64),
    Text(Seq<char>),
}

impl View for Number {
    type V = NumberValue;

    open spec fn view(&self) -> NumberValue {
        match *self {
            Number::Real(bits) => NumberValue::Real(bits),
            Number::Signed(n) => NumberValue::Signed(n),
            Number::Unsigned(n) => NumberValue::Unsigned(n),
            Number::Text(text) => NumberValue::Text(text@),
        }
    }
}

/// What a number that may be missing holds.
pub open spec fn maybe(number: Option<Number>) -> Option<NumberValue> {
    match number {
        Some(number) => Some(number@),
        None => None,
    }
}

/// A time stamp as the document gives it.
#[derive(Debug, Clone)]
pub enum Stamp {
    Text(String),
    /// A 64-bit real, by its IEEE 754 bit pattern.
    Real(u64),
    Date(Moment),
}

/// What a `Stamp` holds.
pub enum StampValue {
    Text(Seq<char>),
    Real(u64),
    Date(Moment),
}

impl View for Stamp {
    type V = StampValue;

    open spec fn view(&self) -> StampValue {
        match *self {
            Stamp::Text(text) => StampValue::Text(text@),
            Stamp::Real(bits) => StampValue::Real(bits),
            Stamp::Date(moment) => StampValue::Date(moment),
        }
    }
}

/// A time stamp in words, where `written` is how its real is written; nothing where its date is
/// outside the years that the notation of dates can name.
pub open spec fn stamp_words(stamp: StampValue, written: Seq<char>) -> Option<Seq<char>> {
    match stamp {
        StampValue::Text(text) => Some(text),
        StampValue::Real(_) => Some(written),
        StampValue::Date(moment) => if moment.in_calendar() {
            Some(document::date_xml(moment))
        } else {
            None
        },
    }
}

impl Stamp {
    /// Writes a time stamp in words, where `written` is how its real is written.
    pub fn to_text(&self, written: &str) -> (r: Option<String>)
        ensures
            r is Some <==> stamp_words(self@, written@) is Some,
            r matches Some(text) ==> stamp_words(self@, written@) == Some(text@),
    {
        match self {
            Stamp::Text(text) => Some(text.as_str().to_owned()),
            Stamp::Real(_) => Some(written.to_owned()),
            Stamp::Date(moment) => document::date_text(*moment),
        }
    }
}

/// Why a document is no sample.
#[derive(Debug, Clone)]
pub enum SnapshotError {
    RootNotDictionary,
    ClusterNotDictionary,
    CpuNotDictionary,
    MissingArray(String),
    MissingDictionary(String),
    /// The file with the documents could not be read.
    FileNotRead,
}

/// What a `SnapshotError` says.
pub enum SnapshotFault {
    RootNotDictionary,
    ClusterNotDictionary,
    CpuNotDictionary,
    MissingArray(Seq<char>),
    MissingDictionary(Seq<char>),
    FileNotRead,
}

impl View for SnapshotError {
    type V = SnapshotFault;

    open spec fn view(&self) -> SnapshotFault {
        match *self {
            SnapshotError::RootNotDictionary => SnapshotFault::RootNotDictionary,
            SnapshotError::ClusterNotDictionary => SnapshotFault::ClusterNotDictionary,
            SnapshotError::CpuNotDictionary => SnapshotFault::CpuNotDictionary,
            SnapshotError::MissingArray(key) => SnapshotFault::MissingArray(key@),
            SnapshotError::MissingDictionary(key) => SnapshotFault::MissingDictionary(key@),
            SnapshotError::FileNotRead => SnapshotFault::FileNotRead,
        }
    }
}

/// The message of a fault.
pub open spec fn fault_message(fault: SnapshotFault) -> Seq<char> {
    match fault {
        SnapshotFault::RootNotDictionary => "powermetrics plist root is not a dictionary"@,
        SnapshotFault::ClusterNotDictionary => "cluster entry is not a dictionary"@,
        SnapshotFault::CpuNotDictionary => "cpu entry is not a dictionary"@,
        SnapshotFault::MissingArray(key) => "missing array key "@ + key,
        SnapshotFault::MissingDictionary(key) => "missing dictionary key "@ + key,
        SnapshotFault::FileNotRead => "read powermetrics output"@,
    }
}

impl SnapshotError {
    /// The message that goes with the error.
    pub fn message(&self) -> (r: String)
        ensures
            r@ == fault_message(self@),
    {
        match self {
            SnapshotError::RootNotDictionary => "powermetrics plist root is not a dictionary".to_owned(),
            SnapshotError::ClusterNotDictionary => "cluster entry is not a dictionary".to_owned(),
            SnapshotError::CpuNotDictionary => "cpu entry is not a dictionary".to_owned(),
            SnapshotError::MissingArray(key) => "missing array key ".to_owned().concat(key.as_str()),
            SnapshotError::MissingDictionary(key) => "missing dictionary key ".to_owned().concat(
                key.as_str(),
            ),
            SnapshotError::FileNotRead => "read powermetrics output".to_owned(),
        }
    }
}

/// The entries of a dictionary.
pub type Entries = Vec<(String, Item)>;

/// What the entries hold.
pub open spec fn entry_trees(entries: Seq<(String, Item)>) -> Seq<(Seq<char>, Tree)> {
    entries.map_values(|e: (String, Item)| (e.0@, e.1.tree()))
}

/// What the items hold.
pub open spec fn item_trees(items: Seq<Item>) -> Seq<Tree> {
    items.map_values(|item: Item| item.tree())
}

/// The parts of a value are the trees of its parts.
proof fn lemma_item_tree(item: Item)
    ensures
        item matches Item::Dictionary(entries) ==> item.tree() == Tree::Dictionary(
            entry_trees(entries@),
        ),
        item matches Item::Array(items) ==> item.tree() == Tree::Array(item_trees(items@)),
{
    match item {
        Item::Dictionary(entries) => {
            assert(item.tree()->Dictionary_0 =~= entry_trees(entries@));
        },
        Item::Array(items) => {
            assert(item.tree()->Array_0 =~= item_trees(items@));
        },
        _ => {},
    }
}

/// The value under `key`: that of the first entry with the key.
pub open spec fn value_at(entries: Seq<(Seq<char>, Tree)>, key: Seq<char>) -> Option<Tree>
    decreases entries.len(),
{
    if entries.len() == 0 {
        None
    } else if entries[0].0 == key {
        Some(entries[0].1)
    } else {
        value_at(entries.skip(1), key)
    }
}

/// The array under `key`.
pub open spec fn array_at(entries: Seq<(Seq<char>, Tree)>, key: Seq<char>) -> Option<Seq<Tree>> {
    match value_at(entries, key) {
        Some(Tree::Array(items)) => Some(items),
        _ => None,
    }
}

/// The dictionary under `key`.
pub open spec fn dictionary_at(entries: Seq<(Seq<char>, Tree)>, key: Seq<char>) -> Option<
    Seq<(Seq<char>, Tree)>,
> {
    match value_at(entries, key) {
        Some(Tree::Dictionary(inner)) => Some(inner),
        _ => None,
    }
}

/// The text under `key`.
pub open spec fn string_at(entries: Seq<(Seq<char>, Tree)>, key: Seq<char>) -> Option<Seq<char>> {
    match value_at(entries, key) {
        Some(Tree::String(text)) => Some(text),
        _ => None,
    }
}

/// A value as a count: an integer that fits 64 bits, negative ones wrapped around, or the number
/// that a text spells.
pub open spec fn count_of(tree: Tree) -> Option<u64> {
    match tree {
        Tree::Integer(n) => if 0 <= n <= u64::MAX {
            Some(n as u64)
        } else if i64::MIN <= n < 0 {
            Some((n + 0x1_0000_0000_0000_0000) as u64)
        } else {
            None
        },
        Tree::String(text) => match text::unsigned_value(text, u64::MAX as nat) {
            Some(n) => Some(n as u64),
            None => None,
        },
        _ => None,
    }
}

/// A value as a number: integers signed where they fit, texts as they stand.
pub open spec fn number_of(tree: Tree) -> Option<NumberValue> {
    match tree {
        Tree::Integer(n) => if i64::MIN <= n <= i64::MAX {
            Some(NumberValue::Signed(n as i64))
        } else if 0 <= n <= u64::MAX {
            Some(NumberValue::Unsigned(n as u64))
        } else {
            None
        },
        Tree::Real(bits) => Some(NumberValue::Real(bits)),
        Tree::String(text) => Some(NumberValue::Text(text)),
        _ => None,
    }
}

/// A value as a time stamp: dates and reals as they stand, integers in decimal.
pub open spec fn stamp_of(tree: Tree) -> Option<StampValue> {
    match tree {
        Tree::Date(moment) => Some(StampValue::Date(moment)),
        Tree::String(text) => Some(StampValue::Text(text)),
        Tree::Integer(n) => if i64::MIN <= n <= u64::MAX {
            Some(StampValue::Text(text::signed_numeral(n)))
        } else {
            None
        },
        Tree::Real(bits) => Some(StampValue::Real(bits)),
        _ => None,
    }
}

/// The number under `key`; nothing where there is none.
pub open spec fn reading_at(entries: Seq<(Seq<char>, Tree)>, key: Seq<char>) -> Option<
    NumberValue,
> {
    match value_at(entries, key) {
        Some(tree) => number_of(tree),
        None => None,
    }
}

/// The number under `key`, zero where there is none.
pub open spec fn number_at(entries: Seq<(Seq<char>, Tree)>, key: Seq<char>) -> NumberValue {
    match reading_at(entries, key) {
        Some(number) => number,
        None => NumberValue::Real(0),
    }
}

/// Reads a value as a count.
pub fn value_as_u64(value: &Item) -> (r: Option<u64>)
    ensures
        r == count_of(value.tree()),
{
    match value {
        Item::Integer(n) => if 0 <= *n && *n <= u64::MAX as i128 {
            Some(*n as u64)
        } else if i64::MIN as i128 <= *n && *n < 0 {
            Some((*n + 0x1_0000_0000_0000_0000) as u64)
        } else {
            None
        },
        Item::String(text) => text::parse_unsigned(text.as_str(), u64::MAX),
        _ => None,
    }
}

/// Reads a value as a number.
pub fn value_as_f64(value: &Item) -> (r: Option<Number>)
    ensures
        match r {
            Some(number) => number_of(value.tree()) == Some(number@),
            None => number_of(value.tree()) is None,
        },
{
    match value {
        Item::Integer(n) => if i64::MIN as i128 <= *n && *n <= i64::MAX as i128 {
            Some(Number::Signed(*n as i64))
        } else if 0 <= *n && *n <= u64::MAX as i128 {
            Some(Number::Unsigned(*n as u64))
        } else {
            None
        },
        Item::Real(bits) => Some(Number::Real(*bits)),
        Item::String(text) => Some(Number::Text(text.clone())),
        _ => None,
    }
}

/// Reads a value as a time stamp.
pub fn value_as_timestamp(value: &Item) -> (r: Option<Stamp>)
    ensures
        match r {
            Some(stamp) => stamp_of(value.tree()) == Some(stamp@),
            None => stamp_of(value.tree()) is None,
        },
{
    match value {
        Item::Date(moment) => Some(Stamp::Date(*moment)),
        Item::String(text) => Some(Stamp::Text(text.clone())),
        Item::Integer(n) => if i64::MIN as i128 <= *n && *n <= i64::MAX as i128 {
            Some(Stamp::Text(text::signed_decimal(*n as i64)))
        } else if 0 <= *n && *n <= u64::MAX as i128 {
            Some(Stamp::Text(text::decimal(*n as u64)))
        } else {
            None
        },
        Item::Real(bits) => Some(Stamp::Real(*bits)),
        _ => None,
    }
}

/// Looks a key up.
pub fn get<'a>(dict: &'a Entries, key: &str) -> (r: Option<&'a Item>)
    ensures
        match r {
            Some(item) => value_at(entry_trees(dict@), key@) == Some(item.tree()),
            None => value_at(entry_trees(dict@), key@) is None,
        },
{
    let ghost all = entry_trees(dict@);
    assert(all.skip(0) =~= all);
    let mut i: usize = 0;
    while i < dict.len()
        invariant
            all == entry_trees(dict@),
            i <= dict.len(),
            value_at(all, key@) == value_at(all.skip(i as int), key@),
        decreases dict.len() - i,
    {
        assert(all.skip(i as int).skip(1) =~= all.skip(i + 1));
        assert(all[i as int] == (dict@[i as int].0@, dict@[i as int].1.tree()));
        if text::same_text(dict[i].0.as_str(), key) {
            return Some(&dict[i].1);
        }
        i = i + 1;
    }
    None
}

/// The array under `key`.
pub fn get_array<'a>(dict: &'a Entries, key: &str) -> (r: Result<&'a Vec<Item>, SnapshotError>)
    ensures
        match r {
            Ok(items) => array_at(entry_trees(dict@), key@) == Some(item_trees(items@)),
            Err(error) => array_at(entry_trees(dict@), key@) is None && error@
                == SnapshotFault::MissingArray(key@),
        },
{
    match get(dict, key) {
        Some(item) => {
            proof {
                lemma_item_tree(*item);
            }
            match item {
                Item::Array(items) => Ok(items),
                _ => Err(SnapshotError::MissingArray(key.to_owned())),
            }
        },
        None => Err(SnapshotError::MissingArray(key.to_owned())),
    }
}

/// The dictionary under `key`.
pub fn get_dict<'a>(dict: &'a Entries, key: &str) -> (r: Result<&'a Entries, SnapshotError>)
    ensures
        match r {
            Ok(inner) => dictionary_at(entry_trees(dict@), key@) == Some(entry_trees(inner@)),
            Err(error) => dictionary_at(entry_trees(dict@), key@) is None && error@
                == SnapshotFault::MissingDictionary(key@),
        },
{
    match get(dict, key) {
        Some(item) => {
            proof {
                lemma_item_tree(*item);
            }
            match item {
                Item::Dictionary(inner) => Ok(inner),
                _ => Err(SnapshotError::MissingDictionary(key.to_owned())),
            }
        },
        None => Err(SnapshotError::MissingDictionary(key.to_owned())),
    }
}

/// The text under `key`.
pub fn get_string(dict: &Entries, key: &str) -> (r: Option<String>)
    ensures
        match r {
            Some(text) => string_at(entry_trees(dict@), key@) == Some(text@),
            None => string_at(entry_trees(dict@), key@) is None,
        },
{
    match get(dict, key) {
        Some(Item::String(text)) => Some(text.clone()),
        _ => None,
    }
}

/// The number under `key`; `None` where there is none.
pub fn get_f64(dict: &Entries, key: &str) -> (r: Option<Number>)
    ensures
        maybe(r) == reading_at(entry_trees(dict@), key@),
{
    match get(dict, key) {
        Some(item) => value_as_f64(item),
        None => None,
    }
}

/// The time stamp under `key`; `None` where there is none.
pub fn get_timestamp(dict: &Entries, key: &str) -> (r: Option<Stamp>)
    ensures
        match r {
            Some(stamp) => value_at(entry_trees(dict@), key@) matches Some(tree) && stamp_of(tree)
                == Some(stamp@),
            None => !(value_at(entry_trees(dict@), key@) matches Some(tree) && stamp_of(
                tree,
            ) is Some),
        },
{
    match get(dict, key) {
        Some(item) => value_as_timestamp(item),
        None => None,
    }
}

/// The count under `key`; `None` where there is none.
pub fn get_usize(dict: &Entries, key: &str) -> (r: Option<usize>)
    ensures
        r == index_at(entry_trees(dict@), key@),
{
    match get(dict, key) {
        Some(item) => match value_as_u64(item) {
            Some(n) => Some(n as usize),
            None => None,
        },
        None => None,
    }
}

/// The count under `key`, cut to the width of an index.
pub open spec fn index_at(entries: Seq<(Seq<char>, Tree)>, key: Seq<char>) -> Option<usize> {
    match value_at(entries, key) {
        Some(tree) => match count_of(tree) {
            Some(n) => Some(n as usize),
            None => None,
        },
        None => None,
    }
}

/// The readings of one core.
#[derive(Debug, Clone)]
pub struct CoreReading {
    pub cpu: usize,
    pub idle_ratio: Option<Number>,
    pub freq_hz: Number,
}

/// What a `CoreReading` holds.
pub struct CoreReadingValue {
    pub cpu: usize,
    pub idle_ratio: Option<NumberValue>,
    pub freq_hz: NumberValue,
}

impl View for CoreReading {
    type V = CoreReadingValue;

    open spec fn view(&self) -> CoreReadingValue {
        CoreReadingValue {
            cpu: self.cpu,
            idle_ratio: maybe(self.idle_ratio),
            freq_hz: self.freq_hz@,
        }
    }
}

/// The readings of one cluster of cores.
#[derive(Debug, Clone)]
pub struct ClusterReading {
    pub name: String,
    pub freq_hz: Number,
    pub idle_ratio: Option<Number>,
    pub cpus: Vec<CoreReading>,
}

/// What a `ClusterReading` holds.
#[verifier::ext_equal]
pub struct ClusterReadingValue {
    pub name: Seq<char>,
    pub freq_hz: NumberValue,
    pub idle_ratio: Option<NumberValue>,
    pub cpus: Seq<CoreReadingValue>,
}

impl View for ClusterReading {
    type V = ClusterReadingValue;

    open spec fn view(&self) -> ClusterReadingValue {
        ClusterReadingValue {
            name: self.name@,
            freq_hz: self.freq_hz@,
            idle_ratio: maybe(self.idle_ratio),
            cpus: self.cpus@.map_values(|core: CoreReading| core@),
        }
    }
}

/// The readings of one sample.
#[derive(Debug, Clone)]
pub struct Readings {
    pub timestamp: Stamp,
    pub thermal_pressure: String,
    pub clusters: Vec<ClusterReading>,
    pub gpu_idle_ratio: Option<Number>,
    pub gpu_freq_hz: Number,
    pub ane_energy: Number,
    pub cpu_energy: Number,
    pub gpu_energy: Number,
    pub combined_power: Number,
}

/// What `Readings` hold.
#[verifier::ext_equal]
pub struct ReadingsValue {
    pub timestamp: StampValue,
    pub thermal_pressure: Seq<char>,
    pub clusters: Seq<ClusterReadingValue>,
    pub gpu_idle_ratio: Option<NumberValue>,
    pub gpu_freq_hz: NumberValue,
    pub ane_energy: NumberValue,
    pub cpu_energy: NumberValue,
    pub gpu_energy: NumberValue,
    pub combined_power: NumberValue,
}

impl View for Readings {
    type V = ReadingsValue;

    open spec fn view(&self) -> ReadingsValue {
        ReadingsValue {
            timestamp: self.timestamp@,
            thermal_pressure: self.thermal_pressure@,
            clusters: self.clusters@.map_values(|cluster: ClusterReading| cluster@),
            gpu_idle_ratio: maybe(self.gpu_idle_ratio),
            gpu_freq_hz: self.gpu_freq_hz@,
            ane_energy: self.ane_energy@,
            cpu_energy: self.cpu_energy@,
            gpu_energy: self.gpu_energy@,
            combined_power: self.combined_power@,
        }
    }
}

/// The readings that an entry of `cpus` carries.
pub open spec fn core_in(tree: Tree) -> Result<CoreReadingValue, SnapshotFault> {
    match tree {
        Tree::Dictionary(entries) => Ok(
            CoreReadingValue {
                cpu: match index_at(entries, "cpu"@) {
                    Some(n) => n,
                    None => 0,
                },
                idle_ratio: reading_at(entries, "idle_ratio"@),
                freq_hz: number_at(entries, "freq_hz"@),
            },
        ),
        _ => Err(SnapshotFault::CpuNotDictionary),
    }
}

/// The readings of all entries of `cpus`, or the fault of the first entry that has one.
pub open spec fn cores_in(trees: Seq<Tree>) -> Result<Seq<CoreReadingValue>, SnapshotFault>
    decreases trees.len(),
{
    if trees.len() == 0 {
        Ok(Seq::empty())
    } else {
        match cores_in(trees.drop_last()) {
            Err(fault) => Err(fault),
            Ok(cores) => match core_in(trees.last()) {
                Err(fault) => Err(fault),
                Ok(core) => Ok(cores.push(core)),
            },
        }
    }
}

/// The readings that an entry of `clusters` carries.
pub open spec fn cluster_in(tree: Tree) -> Result<ClusterReadingValue, SnapshotFault> {
    match tree {
        Tree::Dictionary(entries) => match array_at(entries, "cpus"@) {
            Some(cpus) => match cores_in(cpus) {
                Ok(cores) => Ok(
                    ClusterReadingValue {
                        name: match string_at(entries, "name"@) {
                            Some(name) => name,
                            None => Seq::empty(),
                        },
                        freq_hz: number_at(entries, "freq_hz"@),
                        idle_ratio: reading_at(entries, "idle_ratio"@),
                        cpus: cores,
                    },
                ),
                Err(fault) => Err(fault),
            },
            None => Err(SnapshotFault::MissingArray("cpus"@)),
        },
        _ => Err(SnapshotFault::ClusterNotDictionary),
    }
}

/// The readings of all entries of `clusters`, or the fault of the first entry that has one.
pub open spec fn clusters_in(trees: Seq<Tree>) -> Result<Seq<ClusterReadingValue>, SnapshotFault>
    decreases trees.len(),
{
    if trees.len() == 0 {
        Ok(Seq::empty())
    } else {
        match clusters_in(trees.drop_last()) {
            Err(fault) => Err(fault),
            Ok(clusters) => match cluster_in(trees.last()) {
                Err(fault) => Err(fault),
                Ok(cluster) => Ok(clusters.push(cluster)),
            },
        }
    }
}

/// The readings that a document carries, or why it carries none.
pub open spec fn readings_in(root: Tree) -> Result<ReadingsValue, SnapshotFault> {
    match root {
        Tree::Dictionary(entries) => match dictionary_at(entries, "processor"@) {
            Some(processor) => match dictionary_at(entries, "gpu"@) {
                Some(gpu) => match array_at(processor, "clusters"@) {
                    Some(items) => match clusters_in(items) {
                        Ok(clusters) => Ok(
                            ReadingsValue {
                                timestamp: stamp_at(entries, "timestamp"@),
                                thermal_pressure: match string_at(entries, "thermal_pressure"@) {
                                    Some(pressure) => pressure,
                                    None => "Unknown"@,
                                },
                                clusters,
                                gpu_idle_ratio: reading_at(gpu, "idle_ratio"@),
                                gpu_freq_hz: number_at(gpu, "freq_hz"@),
                                ane_energy: number_at(processor, "ane_energy"@),
                                cpu_energy: number_at(processor, "cpu_energy"@),
                                gpu_energy: number_at(processor, "gpu_energy"@),
                                combined_power: number_at(processor, "combined_power"@),
                            },
                        ),
                        Err(fault) => Err(fault),
                    },
                    None => Err(SnapshotFault::MissingArray("clusters"@)),
                },
                None => Err(SnapshotFault::MissingDictionary("gpu"@)),
            },
            None => Err(SnapshotFault::MissingDictionary("processor"@)),
        },
        _ => Err(SnapshotFault::RootNotDictionary),
    }
}

/// The time stamp under `key`, empty where there is none.
pub open spec fn stamp_at(entries: Seq<(Seq<char>, Tree)>, key: Seq<char>) -> StampValue {
    match value_at(entries, key) {
        Some(tree) => match stamp_of(tree) {
            Some(stamp) => stamp,
            None => StampValue::Text(Seq::empty()),
        },
        None => StampValue::Text(Seq::empty()),
    }
}

/// A fault among the first entries is the fault of all.
proof fn lemma_core_fault(trees: Seq<Tree>, n: int)
    requires
        0 <= n <= trees.len(),
        cores_in(trees.take(n)) is Err,
    ensures
        cores_in(trees) == cores_in(trees.take(n)),
    decreases trees.len() - n,
{
    if n == trees.len() {
        assert(trees.take(n) =~= trees);
    } else {
        assert(trees.take(n + 1).drop_last() =~= trees.take(n));
        lemma_core_fault(trees, n + 1);
    }
}

/// A fault among the first entries is the fault of all.
proof fn lemma_cluster_fault(trees: Seq<Tree>, n: int)
    requires
        0 <= n <= trees.len(),
        clusters_in(trees.take(n)) is Err,
    ensures
        clusters_in(trees) == clusters_in(trees.take(n)),
    decreases trees.len() - n,
{
    if n == trees.len() {
        assert(trees.take(n) =~= trees);
    } else {
        assert(trees.take(n + 1).drop_last() =~= trees.take(n));
        lemma_cluster_fault(trees, n + 1);
    }
}

fn number_or_zero(dict: &Entries, key: &str) -> (r: Number)
    ensures
        r@ == number_at(entry_trees(dict@), key@),
{
    match get_f64(dict, key) {
        Some(number) => number,
        None => Number::Real(0),
    }
}

/// Reads the entry of one core.
pub fn parse_core(item: &Item) -> (r: Result<CoreReading, SnapshotError>)
    ensures
        match r {
            Ok(core) => core_in(item.tree()) == Ok::<CoreReadingValue, SnapshotFault>(core@)
                && is_told_core(core@, item.tree()),
            Err(error) => core_in(item.tree()) == Err::<CoreReadingValue, SnapshotFault>(error@),
        },
{
    proof {
        lemma_item_tree(*item);
    }
    match item {
        Item::Dictionary(dict) => {
            let cpu: usize = match get_usize(dict, "cpu") {
                Some(n) => n,
                None => 0,
            };
            let core: CoreReading = CoreReading {
                cpu,
                idle_ratio: get_f64(dict, "idle_ratio"),
                freq_hz: number_or_zero(dict, "freq_hz"),
            };
            proof {
                law_core_by_key(entry_trees(dict@), core@);
            }
            Ok(core)
        },
        _ => Err(SnapshotError::CpuNotDictionary),
    }
}

/// Reads the entry of one cluster.
pub fn parse_cluster(item: &Item) -> (r: Result<ClusterReading, SnapshotError>)
    ensures
        match r {
            Ok(cluster) => cluster_in(item.tree()) == Ok::<ClusterReadingValue, SnapshotFault>(
                cluster@,
            ),
            Err(error) => cluster_in(item.tree()) == Err::<ClusterReadingValue, SnapshotFault>(
                error@,
            ),
        },
{
    proof {
        lemma_item_tree(*item);
    }
    let dict: &Entries = match item {
        Item::Dictionary(dict) => dict,
        _ => {
            return Err(SnapshotError::ClusterNotDictionary);
        },
    };
    let items: &Vec<Item> = match get_array(dict, "cpus") {
        Ok(items) => items,
        Err(error) => {
            return Err(error);
        },
    };
    let ghost trees = item_trees(items@);
    let mut cpus: Vec<CoreReading> = Vec::new();
    let mut i: usize = 0;
    assert(cpus@.map_values(|core: CoreReading| core@) =~= Seq::empty());
    assert(trees.take(0) =~= Seq::empty());
    while i < items.len()
        invariant
            i <= items.len(),
            trees == item_trees(items@),
            item.tree() == Tree::Dictionary(entry_trees(dict@)),
            array_at(entry_trees(dict@), "cpus"@) == Some(trees),
            cores_in(trees.take(i as int)) == Ok::<Seq<CoreReadingValue>, SnapshotFault>(
                cpus@.map_values(|core: CoreReading| core@),
            ),
        decreases items.len() - i,
    {
        proof {
            assert(trees.take(i + 1).drop_last() =~= trees.take(i as int));
            assert(trees.take(i + 1).last() == items@[i as int].tree());
        }
        match parse_core(&items[i]) {
            Ok(core) => {
                let ghost before = cpus@.map_values(|core: CoreReading| core@);
                cpus.push(core);
                assert(cpus@.map_values(|core: CoreReading| core@) =~= before.push(core@));
            },
            Err(error) => {
                proof {
                    lemma_core_fault(trees, i + 1);
                }
                return Err(error);
            },
        }
        i = i + 1;
    }
    assert(trees.take(trees.len() as int) =~= trees);
    let name: String = match get_string(dict, "name") {
        Some(name) => name,
        None => String::new(),
    };
    Ok(
        ClusterReading {
            name,
            freq_hz: number_or_zero(dict, "freq_hz"),
            idle_ratio: get_f64(dict, "idle_ratio"),
            cpus,
        },
    )
}

/// Reads the readings of a sample out of its document.
pub fn parse_snapshot(root: &Item) -> (r: Result<Readings, SnapshotError>)
    ensures
        match r {
            Ok(readings) => readings_in(root.tree()) == Ok::<ReadingsValue, SnapshotFault>(
                readings@,
            ) && are_told_readings(readings@, root.tree()),
            Err(error) => readings_in(root.tree()) == Err::<ReadingsValue, SnapshotFault>(error@),
        },
{
    proof {
        lemma_item_tree(*root);
    }
    let dict: &Entries = match root {
        Item::Dictionary(dict) => dict,
        _ => {
            return Err(SnapshotError::RootNotDictionary);
        },
    };
    let thermal_pressure: String = match get_string(dict, "thermal_pressure") {
        Some(pressure) => pressure,
        None => "Unknown".to_owned(),
    };
    let timestamp: Stamp = match get_timestamp(dict, "timestamp") {
        Some(stamp) => stamp,
        None => Stamp::Text(String::new()),
    };
    let processor: &Entries = match get_dict(dict, "processor") {
        Ok(processor) => processor,
        Err(error) => {
            return Err(error);
        },
    };
    let gpu: &Entries = match get_dict(dict, "gpu") {
        Ok(gpu) => gpu,
        Err(error) => {
            return Err(error);
        },
    };
    let items: &Vec<Item> = match get_array(processor, "clusters") {
        Ok(items) => items,
        Err(error) => {
            return Err(error);
        },
    };
    let ghost trees = item_trees(items@);
    let mut clusters: Vec<ClusterReading> = Vec::new();
    let mut i: usize = 0;
    assert(clusters@.map_values(|cluster: ClusterReading| cluster@) =~= Seq::empty());
    assert(trees.take(0) =~= Seq::empty());
    while i < items.len()
        invariant
            i <= items.len(),
            trees == item_trees(items@),
            root.tree() == Tree::Dictionary(entry_trees(dict@)),
            dictionary_at(entry_trees(dict@), "processor"@) == Some(entry_trees(processor@)),
            dictionary_at(entry_trees(dict@), "gpu"@) == Some(entry_trees(gpu@)),
            array_at(entry_trees(processor@), "clusters"@) == Some(trees),
            clusters_in(trees.take(i as int)) == Ok::<Seq<ClusterReadingValue>, SnapshotFault>(
                clusters@.map_values(|cluster: ClusterReading| cluster@),
            ),
        decreases items.len() - i,
    {
        proof {
            assert(trees.take(i + 1).drop_last() =~= trees.take(i as int));
            assert(trees.take(i + 1).last() == items@[i as int].tree());
        }
        match parse_cluster(&items[i]) {
            Ok(cluster) => {
                let ghost before = clusters@.map_values(|cluster: ClusterReading| cluster@);
                clusters.push(cluster);
                assert(clusters@.map_values(|cluster: ClusterReading| cluster@) =~= before.push(
                    cluster@,
                ));
            },
            Err(error) => {
                proof {
                    lemma_cluster_fault(trees, i + 1);
                }
                return Err(error);
            },
        }
        i = i + 1;
    }
    assert(trees.take(trees.len() as int) =~= trees);
    let readings: Readings = Readings {
        timestamp,
        thermal_pressure,
        clusters,
        gpu_idle_ratio: get_f64(gpu, "idle_ratio"),
        gpu_freq_hz: number_or_zero(gpu, "freq_hz"),
        ane_energy: number_or_zero(processor, "ane_energy"),
        cpu_energy: number_or_zero(processor, "cpu_energy"),
        gpu_energy: number_or_zero(processor, "gpu_energy"),
        combined_power: number_or_zero(processor, "combined_power"),
    };
    proof {
        law_readings_by_key(root.tree(), readings@);
    }
    Ok(readings)
}

/// The readings of the newest document, or its fault; nothing where there is no document.
pub open spec fn readings_of_newest(newest: Option<Tree>) -> Result<
    Option<ReadingsValue>,
    SnapshotFault,
> {
    match newest {
        Some(root) => match readings_in(root) {
            Ok(readings) => Ok(Some(readings)),
            Err(fault) => Err(fault),
        },
        None => Ok(None),
    }
}

/// Reads the newest sample of the stream that the sampler writes: documents separated by zero
/// bytes, of which the last one that can be read counts.
pub fn read_latest_plist(bytes: &[u8]) -> (r: Result<Option<Readings>, SnapshotError>)
    ensures
        ({
            let newest = document::first_plist(document::newest_chunks(bytes@));
            match r {
                Ok(Some(readings)) => readings_of_newest(newest) == Ok::<
                    Option<ReadingsValue>,
                    SnapshotFault,
                >(Some(readings@)),
                Ok(None) => readings_of_newest(newest) == Ok::<
                    Option<ReadingsValue>,
                    SnapshotFault,
                >(None),
                Err(error) => readings_of_newest(newest) == Err::<
                    Option<ReadingsValue>,
                    SnapshotFault,
                >(error@),
            }
        }),
{
    match document::latest_document(bytes) {
        Some(root) => match parse_snapshot(&root) {
            Ok(readings) => Ok(Some(readings)),
            Err(error) => Err(error),
        },
        None => Ok(None),
    }
}

/// What came of reading the file that the sampler writes.
#[derive(Debug)]
pub enum FileOutcome {
    Bytes(Vec<u8>),
    /// There is no such file yet.
    NotFound,
    /// It could not be read for another reason.
    Failed,
}

/// The readings of the newest document in a file, or what is wrong with it or with the file. A
/// file that is not there has no document.
pub open spec fn readings_of_file(outcome: FileOutcome) -> Result<
    Option<ReadingsValue>,
    SnapshotFault,
> {
    match outcome {
        FileOutcome::Bytes(bytes) => readings_of_newest(
            document::first_plist(document::newest_chunks(bytes@)),
        ),
        FileOutcome::NotFound => Ok(None),
        FileOutcome::Failed => Err(SnapshotFault::FileNotRead),
    }
}

/// Reads the newest sample of the file that the sampler writes.
pub fn read_sample_file(outcome: &FileOutcome) -> (r: Result<Option<Readings>, SnapshotError>)
    ensures
        match r {
            Ok(Some(readings)) => readings_of_file(*outcome) == Ok::<
                Option<ReadingsValue>,
                SnapshotFault,
            >(Some(readings@)),
            Ok(None) => readings_of_file(*outcome) == Ok::<Option<ReadingsValue>, SnapshotFault>(
                None,
            ),
            Err(error) => readings_of_file(*outcome) == Err::<
                Option<ReadingsValue>,
                SnapshotFault,
            >(error@),
        },
{
    match outcome {
        FileOutcome::Bytes(bytes) => read_latest_plist(bytes.as_slice()),
        FileOutcome::NotFound => Ok(None),
        FileOutcome::Failed => Err(SnapshotError::FileNotRead),
    }
}

/// Whether `value` stands under `key`: the first of the entries with the key holds it.
pub open spec fn holds(entries: Seq<(Seq<char>, Tree)>, key: Seq<char>, value: Tree) -> bool {
    exists|i: int|
        0 <= i < entries.len() && #[trigger] entries[i] == (key, value) && forall|j: int|
            0 <= j < i ==> (#[trigger] entries[j]).0 != key
}

/// Whether nothing stands under `key`.
pub open spec fn lacks(entries: Seq<(Seq<char>, Tree)>, key: Seq<char>) -> bool {
    forall|i: int| 0 <= i < entries.len() ==> (#[trigger] entries[i]).0 != key
}

/// Looking a key up gives what stands under it: one value at the most, and none only where no entry
/// has the key.
pub proof fn law_first_entry_counts(entries: Seq<(Seq<char>, Tree)>, key: Seq<char>)
    ensures
        forall|value: Tree| #[trigger]
            holds(entries, key, value) <==> value_at(entries, key) == Some(value),
        lacks(entries, key) <==> value_at(entries, key) is None,
    decreases entries.len(),
{
    if entries.len() > 0 {
        let rest = entries.skip(1);
        law_first_entry_counts(rest, key);
        assert forall|value: Tree| #[trigger] holds(entries, key, value) implies value_at(
            entries,
            key,
        ) == Some(value) by {
            let i = choose|i: int|
                0 <= i < entries.len() && #[trigger] entries[i] == (key, value) && forall|j: int|
                    0 <= j < i ==> (#[trigger] entries[j]).0 != key;
            if i > 0 {
                assert(entries[0].0 != key);
                assert(rest[i - 1] == (key, value));
                assert forall|j: int| 0 <= j < i - 1 implies (#[trigger] rest[j]).0 != key by {
                    assert(entries[j + 1].0 != key);
                }
                assert(holds(rest, key, value));
            }
        }
        assert forall|value: Tree| value_at(entries, key) == Some(value) implies #[trigger] holds(
            entries,
            key,
            value,
        ) by {
            if entries[0].0 == key {
                assert(entries[0] == (key, value));
            } else {
                assert(holds(rest, key, value));
                let i = choose|i: int|
                    0 <= i < rest.len() && #[trigger] rest[i] == (key, value) && forall|j: int|
                        0 <= j < i ==> (#[trigger] rest[j]).0 != key;
                assert(entries[i + 1] == (key, value));
                assert forall|j: int| 0 <= j < i + 1 implies (#[trigger] entries[j]).0 != key by {
                    if j > 0 {
                        assert(rest[j - 1].0 != key);
                    }
                }
            }
        }
        if lacks(entries, key) {
            assert(entries[0].0 != key);
            assert forall|j: int| 0 <= j < rest.len() implies (#[trigger] rest[j]).0 != key by {
                assert(entries[j + 1].0 != key);
            }
        }
        if value_at(entries, key) is None {
            assert forall|j: int| 0 <= j < entries.len() implies (#[trigger] entries[j]).0
                != key by {
                if j > 0 {
                    assert(rest[j - 1].0 != key);
                }
            }
        }
    }
}

/// Whether a number is what a value holds: the same integer, real or text.
pub open spec fn tells(number: NumberValue, value: Tree) -> bool {
    match number {
        NumberValue::Signed(n) => value == Tree::Integer(n as int),
        NumberValue::Unsigned(n) => value == Tree::Integer(n as int),
        NumberValue::Real(bits) => value == Tree::Real(bits),
        NumberValue::Text(text) => value == Tree::String(text),
    }
}

/// Whether a value is an integer of 64 bits, a real or a text.
pub open spec fn is_numeric(value: Tree) -> bool {
    match value {
        Tree::Integer(n) => i64::MIN <= n <= u64::MAX,
        Tree::Real(_) => true,
        Tree::String(_) => true,
        _ => false,
    }
}

/// Whether `number` is the one under `key`, where there is one, and nothing where there is none.
pub open spec fn is_reading(
    number: Option<NumberValue>,
    entries: Seq<(Seq<char>, Tree)>,
    key: Seq<char>,
) -> bool {
    match number {
        Some(n) => exists|value: Tree| #[trigger] holds(entries, key, value) && tells(n, value),
        None => forall|value: Tree| #[trigger] holds(entries, key, value) ==> !is_numeric(value),
    }
}

/// Whether `number` is the one under `key`, where there is one, and zero where there is none.
pub open spec fn is_figure(
    number: NumberValue,
    entries: Seq<(Seq<char>, Tree)>,
    key: Seq<char>,
) -> bool {
    is_reading(Some(number), entries, key) || (number == NumberValue::Real(0) && is_reading(
        None,
        entries,
        key,
    ))
}

/// A number that is read is the one that the document has.
pub proof fn law_numbers_are_kept(entries: Seq<(Seq<char>, Tree)>, key: Seq<char>)
    ensures
        is_reading(reading_at(entries, key), entries, key),
        is_figure(number_at(entries, key), entries, key),
{
    law_first_entry_counts(entries, key);
    if let Some(value) = value_at(entries, key) {
        assert(holds(entries, key, value));
    }
}

/// Whether a core is what an entry of `cpus` tells: its number under `cpu`, the share of time that
/// it was idle under `idle_ratio`, its frequency under `freq_hz`.
pub open spec fn is_core_of(core: CoreReadingValue, entries: Seq<(Seq<char>, Tree)>) -> bool {
    &&& forall|n: int|
        0 <= n <= usize::MAX && #[trigger] holds(entries, "cpu"@, Tree::Integer(n)) ==> core.cpu
            == n
    &&& forall|digits: Seq<char>, n: nat|
        #![trigger holds(entries, "cpu"@, Tree::String(digits)), text::unsigned_value(digits, n)]
        n <= usize::MAX && n <= u64::MAX && holds(entries, "cpu"@, Tree::String(digits))
            && text::unsigned_value(digits, n) == Some(n) ==> core.cpu == n
    &&& lacks(entries, "cpu"@) ==> core.cpu == 0
    &&& is_reading(core.idle_ratio, entries, "idle_ratio"@)
    &&& is_figure(core.freq_hz, entries, "freq_hz"@)
}

/// Whether a core is what a value tells, which is a dictionary.
pub open spec fn is_told_core(core: CoreReadingValue, value: Tree) -> bool {
    value matches Tree::Dictionary(entries) && is_core_of(core, entries)
}

/// Reading an entry of `cpus` takes each figure from its own key. Entries with different numbers
/// give cores with different numbers.
pub proof fn law_core_by_key(entries: Seq<(Seq<char>, Tree)>, core: CoreReadingValue)
    requires
        core_in(Tree::Dictionary(entries)) == Ok::<CoreReadingValue, SnapshotFault>(core),
    ensures
        is_core_of(core, entries),
{
    law_first_entry_counts(entries, "cpu"@);
    law_numbers_are_kept(entries, "idle_ratio"@);
    law_numbers_are_kept(entries, "freq_hz"@);
}

/// Cores are told apart by their numbers.
pub proof fn law_cores_keep_apart(
    first: Seq<(Seq<char>, Tree)>,
    second: Seq<(Seq<char>, Tree)>,
    m: int,
    n: int,
    a: CoreReadingValue,
    b: CoreReadingValue,
)
    requires
        core_in(Tree::Dictionary(first)) == Ok::<CoreReadingValue, SnapshotFault>(a),
        core_in(Tree::Dictionary(second)) == Ok::<CoreReadingValue, SnapshotFault>(b),
        holds(first, "cpu"@, Tree::Integer(m)),
        holds(second, "cpu"@, Tree::Integer(n)),
        0 <= m <= usize::MAX,
        0 <= n <= usize::MAX,
        m != n,
    ensures
        a.cpu != b.cpu,
{
    law_core_by_key(first, a);
    law_core_by_key(second, b);
}

/// Whether a cluster is what an entry of `clusters` tells: its name, frequency and idle share under
/// their keys, and its cores, in their order, from the entries of `cpus`.
pub open spec fn is_cluster_of(
    cluster: ClusterReadingValue,
    entries: Seq<(Seq<char>, Tree)>,
) -> bool {
    &&& forall|name: Seq<char>| #[trigger]
        holds(entries, "name"@, Tree::String(name)) ==> cluster.name == name
    &&& lacks(entries, "name"@) ==> cluster.name.len() == 0
    &&& is_figure(cluster.freq_hz, entries, "freq_hz"@)
    &&& is_reading(cluster.idle_ratio, entries, "idle_ratio"@)
    &&& exists|items: Seq<Tree>| #[trigger]
        holds(entries, "cpus"@, Tree::Array(items)) && items.len() == cluster.cpus.len() && forall|
            k: int,
        |
            #![trigger cluster.cpus[k]]
            0 <= k < items.len() ==> is_told_core(cluster.cpus[k], items[k])
}

/// Whether a cluster is what a value tells, which is a dictionary.
pub open spec fn is_told_cluster(cluster: ClusterReadingValue, value: Tree) -> bool {
    value matches Tree::Dictionary(entries) && is_cluster_of(cluster, entries)
}

/// The cores that are read are those of the entries, one for each, in their order.
proof fn lemma_cores_by_key(trees: Seq<Tree>, cores: Seq<CoreReadingValue>)
    requires
        cores_in(trees) == Ok::<Seq<CoreReadingValue>, SnapshotFault>(cores),
    ensures
        cores.len() == trees.len(),
        forall|k: int|
            #![trigger cores[k]]
            0 <= k < trees.len() ==> is_told_core(cores[k], trees[k]),
    decreases trees.len(),
{
    if trees.len() > 0 {
        let before = cores_in(trees.drop_last())->Ok_0;
        lemma_cores_by_key(trees.drop_last(), before);
        assert(cores == before.push(cores.last()));
        let core = core_in(trees.last())->Ok_0;
        if let Tree::Dictionary(inner) = trees.last() {
            law_core_by_key(inner, core);
        }
        assert forall|k: int|
            #![trigger cores[k]]
            0 <= k < trees.len() implies is_told_core(cores[k], trees[k]) by {
            if k < trees.len() - 1 {
                assert(before[k] == cores[k]);
                assert(trees.drop_last()[k] == trees[k]);
            }
        }
    }
}

/// Reading an entry of `clusters` takes each figure from its own key.
pub proof fn law_cluster_by_key(entries: Seq<(Seq<char>, Tree)>, cluster: ClusterReadingValue)
    requires
        cluster_in(Tree::Dictionary(entries)) == Ok::<ClusterReadingValue, SnapshotFault>(cluster),
    ensures
        is_cluster_of(cluster, entries),
{
    law_first_entry_counts(entries, "name"@);
    law_first_entry_counts(entries, "cpus"@);
    law_numbers_are_kept(entries, "freq_hz"@);
    law_numbers_are_kept(entries, "idle_ratio"@);
    let items = array_at(entries, "cpus"@)->0;
    assert(holds(entries, "cpus"@, Tree::Array(items)));
    lemma_cores_by_key(items, cluster.cpus);
}

/// The clusters that are read are those of the entries, one for each, in their order.
proof fn lemma_clusters_by_key(trees: Seq<Tree>, clusters: Seq<ClusterReadingValue>)
    requires
        clusters_in(trees) == Ok::<Seq<ClusterReadingValue>, SnapshotFault>(clusters),
    ensures
        clusters.len() == trees.len(),
        forall|k: int|
            #![trigger clusters[k]]
            0 <= k < trees.len() ==> is_told_cluster(clusters[k], trees[k]),
    decreases trees.len(),
{
    if trees.len() > 0 {
        let before = clusters_in(trees.drop_last())->Ok_0;
        lemma_clusters_by_key(trees.drop_last(), before);
        assert(clusters == before.push(clusters.last()));
        let cluster = cluster_in(trees.last())->Ok_0;
        if let Tree::Dictionary(inner) = trees.last() {
            law_cluster_by_key(inner, cluster);
        }
        assert forall|k: int|
            #![trigger clusters[k]]
            0 <= k < trees.len() implies is_told_cluster(clusters[k], trees[k]) by {
            if k < trees.len() - 1 {
                assert(before[k] == clusters[k]);
                assert(trees.drop_last()[k] == trees[k]);
            }
        }
    }
}

/// Whether readings are what a document with these entries, this processor and these graphics
/// tells.
pub open spec fn are_readings_of(
    readings: ReadingsValue,
    entries: Seq<(Seq<char>, Tree)>,
    processor: Seq<(Seq<char>, Tree)>,
    gpu: Seq<(Seq<char>, Tree)>,
) -> bool {
    &&& forall|moment: Moment| #[trigger]
        holds(entries, "timestamp"@, Tree::Date(moment)) ==> readings.timestamp
            == StampValue::Date(moment)
    &&& forall|stamp: Seq<char>| #[trigger]
        holds(entries, "timestamp"@, Tree::String(stamp)) ==> readings.timestamp
            == StampValue::Text(stamp)
    &&& forall|bits: u64| #[trigger]
        holds(entries, "timestamp"@, Tree::Real(bits)) ==> readings.timestamp == StampValue::Real(
            bits,
        )
    &&& forall|n: int| #[trigger]
        holds(entries, "timestamp"@, Tree::Integer(n)) && 0 <= n <= u64::MAX ==> (
        readings.timestamp matches StampValue::Text(digits) && text::unsigned_value(
            digits,
            n as nat,
        ) == Some(n as nat))
    &&& lacks(entries, "timestamp"@) ==> readings.timestamp == StampValue::Text(Seq::empty())
    &&& forall|pressure: Seq<char>| #[trigger]
        holds(entries, "thermal_pressure"@, Tree::String(pressure)) ==> readings.thermal_pressure
            == pressure
    &&& lacks(entries, "thermal_pressure"@) ==> readings.thermal_pressure == "Unknown"@
    &&& is_reading(readings.gpu_idle_ratio, gpu, "idle_ratio"@)
    &&& is_figure(readings.gpu_freq_hz, gpu, "freq_hz"@)
    &&& is_figure(readings.ane_energy, processor, "ane_energy"@)
    &&& is_figure(readings.cpu_energy, processor, "cpu_energy"@)
    &&& is_figure(readings.gpu_energy, processor, "gpu_energy"@)
    &&& is_figure(readings.combined_power, processor, "combined_power"@)
    &&& exists|items: Seq<Tree>| #[trigger]
        holds(processor, "clusters"@, Tree::Array(items)) && items.len() == readings.clusters.len()
            && forall|k: int|
            #![trigger readings.clusters[k]]
            0 <= k < items.len() ==> is_told_cluster(readings.clusters[k], items[k])
}

/// Whether readings are what a document tells, which is a dictionary with dictionaries of the
/// processor and of the graphics.
pub open spec fn are_told_readings(readings: ReadingsValue, root: Tree) -> bool {
    root matches Tree::Dictionary(entries) && exists|
        processor: Seq<(Seq<char>, Tree)>,
        gpu: Seq<(Seq<char>, Tree)>,
    |
        #![trigger holds(entries, "processor"@, Tree::Dictionary(processor)), holds(entries, "gpu"@, Tree::Dictionary(gpu))]
        holds(entries, "processor"@, Tree::Dictionary(processor)) && holds(
            entries,
            "gpu"@,
            Tree::Dictionary(gpu),
        ) && are_readings_of(readings, entries, processor, gpu)
}

/// The readings of a document that is read without a fault are each taken from its own key: the
/// energy figures from the processor, whatever the graphics hold, the load and frequency of the
/// graphics from the graphics, whatever the processor holds.
pub proof fn law_readings_by_key(root: Tree, readings: ReadingsValue)
    requires
        readings_in(root) == Ok::<ReadingsValue, SnapshotFault>(readings),
    ensures
        are_told_readings(readings, root),
{
    if let Tree::Dictionary(entries) = root {
        law_first_entry_counts(entries, "processor"@);
        law_first_entry_counts(entries, "gpu"@);
        law_first_entry_counts(entries, "timestamp"@);
        law_first_entry_counts(entries, "thermal_pressure"@);
        if let Some(Tree::Integer(n)) = value_at(entries, "timestamp"@) {
            if 0 <= n {
                text::law_numeral_reads_back(n as nat, n as nat);
            }
        }
        let processor = dictionary_at(entries, "processor"@)->0;
        let gpu = dictionary_at(entries, "gpu"@)->0;
        law_first_entry_counts(processor, "clusters"@);
        law_numbers_are_kept(gpu, "idle_ratio"@);
        law_numbers_are_kept(gpu, "freq_hz"@);
        law_numbers_are_kept(processor, "ane_energy"@);
        law_numbers_are_kept(processor, "cpu_energy"@);
        law_numbers_are_kept(processor, "gpu_energy"@);
        law_numbers_are_kept(processor, "combined_power"@);
        let items = array_at(processor, "clusters"@)->0;
        lemma_clusters_by_key(items, readings.clusters);
        assert(holds(processor, "clusters"@, Tree::Array(items)));
        assert(holds(entries, "processor"@, Tree::Dictionary(processor)));
        assert(holds(entries, "gpu"@, Tree::Dictionary(gpu)));
    }
}

/// Each energy figure of a document that is read without a fault is the number under its own key of
/// the processor.
pub proof fn law_energy_by_key(
    entries: Seq<(Seq<char>, Tree)>,
    processor: Seq<(Seq<char>, Tree)>,
    readings: ReadingsValue,
    value: Tree,
    number: NumberValue,
)
    requires
        readings_in(Tree::Dictionary(entries)) == Ok::<ReadingsValue, SnapshotFault>(readings),
        holds(entries, "processor"@, Tree::Dictionary(processor)),
        tells(number, value),
        number matches NumberValue::Unsigned(n) ==> n > i64::MAX,
    ensures
        holds(processor, "cpu_energy"@, value) ==> readings.cpu_energy == number,
        holds(processor, "gpu_energy"@, value) ==> readings.gpu_energy == number,
        holds(processor, "ane_energy"@, value) ==> readings.ane_energy == number,
        holds(processor, "combined_power"@, value) ==> readings.combined_power == number,
{
    law_first_entry_counts(entries, "processor"@);
    law_first_entry_counts(processor, "cpu_energy"@);
    law_first_entry_counts(processor, "gpu_energy"@);
    law_first_entry_counts(processor, "ane_energy"@);
    law_first_entry_counts(processor, "combined_power"@);
}

/// Whether an entry of `clusters` can be read: a dictionary with an array of dictionaries under
/// `cpus`.
pub open spec fn is_cluster(value: Tree) -> bool {
    value matches Tree::Dictionary(entries) && exists|items: Seq<Tree>| #[trigger]
        holds(entries, "cpus"@, Tree::Array(items)) && forall|k: int|
            0 <= k < items.len() ==> (#[trigger] items[k]) is Dictionary
}

/// Whether a document is a sample: a dictionary with dictionaries under `processor` and `gpu`, the
/// first of which has an array of clusters.
pub open spec fn is_sample(root: Tree) -> bool {
    root matches Tree::Dictionary(entries) && exists|
        processor: Seq<(Seq<char>, Tree)>,
        gpu: Seq<(Seq<char>, Tree)>,
        items: Seq<Tree>,
    |
        #![trigger holds(entries, "processor"@, Tree::Dictionary(processor)), holds(entries, "gpu"@, Tree::Dictionary(gpu)), holds(processor, "clusters"@, Tree::Array(items))]
        holds(entries, "processor"@, Tree::Dictionary(processor)) && holds(
            entries,
            "gpu"@,
            Tree::Dictionary(gpu),
        ) && holds(processor, "clusters"@, Tree::Array(items)) && forall|k: int|
            0 <= k < items.len() ==> is_cluster(#[trigger] items[k])
}

proof fn lemma_cores_readable(trees: Seq<Tree>)
    ensures
        cores_in(trees) is Ok <==> forall|k: int|
            0 <= k < trees.len() ==> (#[trigger] trees[k]) is Dictionary,
    decreases trees.len(),
{
    if trees.len() > 0 {
        let before = trees.drop_last();
        lemma_cores_readable(before);
        if cores_in(trees) is Ok {
            assert forall|k: int| 0 <= k < trees.len() implies (
            #[trigger] trees[k]) is Dictionary by {
                if k < before.len() {
                    assert(before[k] is Dictionary);
                }
            }
        }
        if forall|k: int| 0 <= k < trees.len() ==> (#[trigger] trees[k]) is Dictionary {
            assert forall|k: int| 0 <= k < before.len() implies (
            #[trigger] before[k]) is Dictionary by {
                assert(trees[k] is Dictionary);
            }
            assert(trees[trees.len() - 1] is Dictionary);
        }
    }
}

proof fn lemma_cluster_readable(value: Tree)
    ensures
        cluster_in(value) is Ok <==> is_cluster(value),
{
    if let Tree::Dictionary(entries) = value {
        law_first_entry_counts(entries, "cpus"@);
        if let Some(items) = array_at(entries, "cpus"@) {
            lemma_cores_readable(items);
            assert(holds(entries, "cpus"@, Tree::Array(items)));
        }
    }
}

proof fn lemma_clusters_readable(trees: Seq<Tree>)
    ensures
        clusters_in(trees) is Ok <==> forall|k: int|
            0 <= k < trees.len() ==> is_cluster(#[trigger] trees[k]),
    decreases trees.len(),
{
    if trees.len() > 0 {
        let before = trees.drop_last();
        lemma_clusters_readable(before);
        lemma_cluster_readable(trees.last());
        if clusters_in(trees) is Ok {
            assert forall|k: int| 0 <= k < trees.len() implies is_cluster(#[trigger] trees[k]) by {
                if k < before.len() {
                    assert(is_cluster(before[k]));
                }
            }
        }
        if forall|k: int| 0 <= k < trees.len() ==> is_cluster(#[trigger] trees[k]) {
            assert forall|k: int| 0 <= k < before.len() implies is_cluster(
                #[trigger] before[k],
            ) by {
                assert(is_cluster(trees[k]));
            }
            assert(is_cluster(trees[trees.len() - 1]));
        }
    }
}

/// A document is read without a fault exactly where it is a sample.
pub proof fn law_samples_are_read(root: Tree)
    ensures
        readings_in(root) is Ok <==> is_sample(root),
{
    if let Tree::Dictionary(entries) = root {
        law_first_entry_counts(entries, "processor"@);
        law_first_entry_counts(entries, "gpu"@);
        if let Some(processor) = dictionary_at(entries, "processor"@) {
            assert(holds(entries, "processor"@, Tree::Dictionary(processor)));
            law_first_entry_counts(processor, "clusters"@);
            if let Some(gpu) = dictionary_at(entries, "gpu"@) {
                assert(holds(entries, "gpu"@, Tree::Dictionary(gpu)));
            }
            if let Some(items) = array_at(processor, "clusters"@) {
                assert(holds(processor, "clusters"@, Tree::Array(items)));
                lemma_clusters_readable(items);
            }
        }
    }
}

/// The fault of a document names the first thing that it lacks: being a dictionary, then the
/// dictionaries of the processor and of the graphics, then the array of clusters.
pub proof fn law_fault_names_what_is_missing(
    entries: Seq<(Seq<char>, Tree)>,
    processor: Seq<(Seq<char>, Tree)>,
    gpu: Seq<(Seq<char>, Tree)>,
    root: Tree,
)
    ensures
        !(root is Dictionary) ==> readings_in(root) == Err::<ReadingsValue, SnapshotFault>(
            SnapshotFault::RootNotDictionary,
        ),
        lacks(entries, "processor"@) ==> readings_in(Tree::Dictionary(entries)) == Err::<
            ReadingsValue,
            SnapshotFault,
        >(SnapshotFault::MissingDictionary("processor"@)),
        holds(entries, "processor"@, Tree::Dictionary(processor)) && lacks(entries, "gpu"@)
            ==> readings_in(Tree::Dictionary(entries)) == Err::<ReadingsValue, SnapshotFault>(
            SnapshotFault::MissingDictionary("gpu"@),
        ),
        holds(entries, "processor"@, Tree::Dictionary(processor)) && holds(
            entries,
            "gpu"@,
            Tree::Dictionary(gpu),
        ) && lacks(processor, "clusters"@) ==> readings_in(Tree::Dictionary(entries)) == Err::<
            ReadingsValue,
            SnapshotFault,
        >(SnapshotFault::MissingArray("clusters"@)),
        !(root is Dictionary) ==> cluster_in(root) == Err::<ClusterReadingValue, SnapshotFault>(
            SnapshotFault::ClusterNotDictionary,
        ) && core_in(root) == Err::<CoreReadingValue, SnapshotFault>(
            SnapshotFault::CpuNotDictionary,
        ),
        lacks(entries, "cpus"@) ==> cluster_in(Tree::Dictionary(entries)) == Err::<
            ClusterReadingValue,
            SnapshotFault,
        >(SnapshotFault::MissingArray("cpus"@)),
{
    law_first_entry_counts(entries, "processor"@);
    law_first_entry_counts(entries, "gpu"@);
    law_first_entry_counts(entries, "cpus"@);
    law_first_entry_counts(processor, "clusters"@);
}

} // verus!
