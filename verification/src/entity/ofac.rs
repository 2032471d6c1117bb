//! The OFAC SDN seed list: its CSV form, and the labels that it seeds.

use crate::config::ManualLabelConfig;
use crate::text::{str_eq, utf8};
use crate::tokens::registry::{address_of_text, parse_address};
use vstd::prelude::*;

verus! {

/// The data rows of a CSV text whose first row is a header: each row as its
/// fields. Rows may differ in width. Nothing where the text is no CSV.
pub uninterp spec fn csv_rows(text: Seq<char>) -> Option<Seq<Seq<Seq<char>>>>;

/// A text without the white space at its ends.
pub uninterp spec fn trimmed(text: Seq<char>) -> Seq<char>;

/// What rows of fields hold.
pub open spec fn rows_view(rows: Seq<Vec<String>>) -> Seq<Seq<Seq<char>>> {
    rows.map_values(|r: Vec<String>| r@.map_values(|f: String| f@))
}

/// The reader of the `csv` crate, set to skip a header row and to accept
/// rows of any width: the fields of every data row, or nothing where the
/// reader reports an error.
#[verifier::external_body]
fn read_csv_rows(text: &str) -> (rows: Option<Vec<Vec<String>>>)
    ensures
        match rows {
            Some(r) => csv_rows(text@) == Some(rows_view(r@)),
            None => csv_rows(text@) is None,
        },
{
    let mut reader = csv::ReaderBuilder::new().has_headers(true).flexible(true).from_reader(
        text.as_bytes(),
    );
    let mut rows: Vec<Vec<String>> = Vec::new();
    for record in reader.records() {
        match record {
            Ok(r) => rows.push(r.iter().map(|f| f.to_string()).collect()),
            Err(_) => return None,
        }
    }
    Some(rows)
}

/// `str::trim`: the text without leading and trailing white space.
#[verifier::external_body]
fn trim_text(text: &str) -> (out: String)
    ensures
        out@ == trimmed(text@),
{
    text.trim().to_string()
}

/// An entry of the SDN list with its crypto addresses.
#[derive(Debug)]
pub struct OfacEntry {
    pub sdn_id: String,
    pub entity_name: String,
    pub program: String,
    pub addresses: Vec<String>,
}

/// What a `OfacEntry` holds, as plain mathematical values.
pub struct OfacEntryView {
    pub sdn_id: Seq<char>,
    pub entity_name: Seq<char>,
    pub program: Seq<char>,
    pub addresses: Seq<Seq<char>>,
}

impl View for OfacEntry {
    type V = OfacEntryView;

    open spec fn view(&self) -> OfacEntryView {
        OfacEntryView {
            sdn_id: self.sdn_id@,
            entity_name: self.entity_name@,
            program: self.program@,
            addresses: self.addresses@.map_values(|a: String| a@),
        }
    }
}

/// The views of a run of entries.
pub open spec fn entries_view(entries: Seq<OfacEntry>) -> Seq<OfacEntryView> {
    entries.map_values(|e: OfacEntry| e@)
}

/// The field of a row at `i`, trimmed; the trimmed empty text where the
/// row is shorter.
pub open spec fn field_at(row: Seq<Seq<char>>, i: int) -> Seq<char> {
    if 0 <= i < row.len() {
        trimmed(row[i])
    } else {
        trimmed(Seq::empty())
    }
}

/// Whether an address field is listed: it begins with `0x`.
pub open spec fn address_listed(address: Seq<char>) -> bool {
    address.len() >= 2 && address[0] == '0' && address[1] == 'x'
}

/// The index of the first entry with the given SDN id, or the number of
/// entries where there is none.
pub open spec fn entry_index(entries: Seq<OfacEntryView>, sdn_id: Seq<char>) -> int
    decreases entries.len(),
{
    if entries.len() == 0 {
        0
    } else if entries[0].sdn_id == sdn_id {
        0
    } else {
        1 + entry_index(entries.drop_first(), sdn_id)
    }
}

/// The entries with one more row. The columns are SDN id, entity name,
/// program and address. A row whose address does not begin with `0x` adds
/// nothing. Another row adds its address to the entry with its SDN id,
/// which keeps the name and program of its first row, or makes a new
/// entry at the end.
pub open spec fn with_row(entries: Seq<OfacEntryView>, row: Seq<Seq<char>>) -> Seq<OfacEntryView> {
    let sdn_id = field_at(row, 0);
    let address = field_at(row, 3);
    if !address_listed(address) {
        entries
    } else {
        let i = entry_index(entries, sdn_id);
        if i < entries.len() {
            entries.update(
                i,
                OfacEntryView { addresses: entries[i].addresses.push(address), ..entries[i] },
            )
        } else {
            entries.push(
                OfacEntryView {
                    sdn_id,
                    entity_name: field_at(row, 1),
                    program: field_at(row, 2),
                    addresses: seq![address],
                },
            )
        }
    }
}

/// The entries that rows of fields make, taken in order.
pub open spec fn ofac_entries_of(rows: Seq<Seq<Seq<char>>>) -> Seq<OfacEntryView>
    decreases rows.len(),
{
    if rows.len() == 0 {
        Seq::empty()
    } else {
        with_row(ofac_entries_of(rows.drop_last()), rows.last())
    }
}

proof fn lemma_entry_index_is(entries: Seq<OfacEntryView>, sdn_id: Seq<char>, i: int)
    requires
        0 <= i <= entries.len(),
        forall|j: int| 0 <= j < i ==> (#[trigger] entries[j]).sdn_id != sdn_id,
        i < entries.len() ==> entries[i].sdn_id == sdn_id,
    ensures
        entry_index(entries, sdn_id) == i,
    decreases entries.len(),
{
    if entries.len() > 0 && i > 0 {
        assert(entries[0].sdn_id != sdn_id);
        let rest = entries.drop_first();
        assert forall|j: int| 0 <= j < i - 1 implies (#[trigger] rest[j]).sdn_id != sdn_id by {
            assert(rest[j] == entries[j + 1]);
        }
        lemma_entry_index_is(rest, sdn_id, i - 1);
    }
}

fn trimmed_field(row: &Vec<String>, i: usize) -> (field: String)
    ensures
        field@ == field_at(row@.map_values(|f: String| f@), i as int),
{
    if i < row.len() {
        trim_text(row[i].as_str())
    } else {
        let empty = String::new();
        trim_text(empty.as_str())
    }
}

fn is_listed(address: &str) -> (listed: bool)
    ensures
        listed == address_listed(address@),
{
    let n = address.unicode_len();
    n >= 2 && address.get_char(0) == '0' && address.get_char(1) == 'x'
}

fn copy_texts(list: &Vec<String>) -> (copy: Vec<String>)
    ensures
        copy@.map_values(|a: String| a@) == list@.map_values(|a: String| a@),
{
    let mut copy: Vec<String> = Vec::new();
    let mut i: usize = 0;
    while i < list.len()
        invariant
            i <= list@.len(),
            copy@.len() == i,
            forall|j: int| 0 <= j < i ==> copy@[j]@ == list@[j]@,
        decreases list@.len() - i,
    {
        copy.push(list[i].clone());
        i += 1;
    }
    assert(copy@.map_values(|a: String| a@) =~= list@.map_values(|a: String| a@));
    copy
}

/// Groups the data rows of the SDN list into entries.
pub fn ofac_entries_from_rows(rows: &[Vec<String>]) -> (entries: Vec<OfacEntry>)
    ensures
        entries_view(entries@) == ofac_entries_of(rows_view(rows@)),
{
    let mut entries: Vec<OfacEntry> = Vec::new();
    let mut r: usize = 0;
    assert(rows_view(rows@).take(0) =~= Seq::<Seq<Seq<char>>>::empty());
    assert(entries_view(entries@) =~= Seq::<OfacEntryView>::empty());
    while r < rows.len()
        invariant
            r <= rows@.len(),
            entries_view(entries@) == ofac_entries_of(rows_view(rows@).take(r as int)),
        decreases rows@.len() - r,
    {
        let row = &rows[r];
        proof {
            let next = rows_view(rows@).take(r + 1);
            assert(next.drop_last() =~= rows_view(rows@).take(r as int));
            assert(next.last() == row@.map_values(|f: String| f@));
        }
        let ghost before = entries_view(entries@);
        let sdn_id = trimmed_field(row, 0);
        let entity_name = trimmed_field(row, 1);
        let program = trimmed_field(row, 2);
        let address = trimmed_field(row, 3);
        if is_listed(address.as_str()) {
            let mut i: usize = 0;
            while i < entries.len() && !str_eq(entries[i].sdn_id.as_str(), sdn_id.as_str())
                invariant
                    i <= entries@.len(),
                    before == entries_view(entries@),
                    forall|j: int| 0 <= j < i ==> (#[trigger] before[j]).sdn_id != sdn_id@,
                decreases entries@.len() - i,
            {
                assert(before[i as int].sdn_id != sdn_id@);
                i += 1;
            }
            proof {
                if i < entries@.len() {
                    assert(before[i as int].sdn_id == sdn_id@);
                }
                lemma_entry_index_is(before, sdn_id@, i as int);
            }
            if i < entries.len() {
                let old_entry = &entries[i];
                let mut addresses = copy_texts(&old_entry.addresses);
                let ghost listed = addresses@.map_values(|a: String| a@);
                let ghost av = address@;
                addresses.push(address);
                assert(addresses@.map_values(|a: String| a@) =~= listed.push(av));
                let entry = OfacEntry {
                    sdn_id: old_entry.sdn_id.clone(),
                    entity_name: old_entry.entity_name.clone(),
                    program: old_entry.program.clone(),
                    addresses,
                };
                let ghost ev = entry@;
                entries[i] = entry;
                assert(entries_view(entries@) =~= before.update(i as int, ev));
            } else {
                let mut addresses: Vec<String> = Vec::new();
                let ghost av = address@;
                addresses.push(address);
                assert(addresses@.map_values(|a: String| a@) =~= seq![av]);
                let entry = OfacEntry { sdn_id, entity_name, program, addresses };
                let ghost ev = entry@;
                entries.push(entry);
                assert(entries_view(entries@) =~= before.push(ev));
            }
        }
        r += 1;
    }
    assert(rows_view(rows@).take(rows@.len() as int) =~= rows_view(rows@));
    entries
}

/// Parses the text of an SDN list in CSV form: a header row, then rows of
/// SDN id, entity name, program and address, of any width. Rows that share
/// an SDN id make one entry with several addresses. Nothing where the text
/// is no CSV.
pub fn parse_ofac_csv(text: &str) -> (entries: Option<Vec<OfacEntry>>)
    ensures
        match entries {
            Some(e) => csv_rows(text@) is Some && entries_view(e@) == ofac_entries_of(
                csv_rows(text@).unwrap(),
            ),
            None => csv_rows(text@) is None,
        },
{
    match read_csv_rows(text) {
        Some(rows) => Some(ofac_entries_from_rows(rows.as_slice())),
        None => None,
    }
}

/// A label to seed.
#[derive(Debug)]
pub struct LabelSeed {
    pub address: Vec<u8>,
    pub chain_id: Option<i64>,
    pub entity_name: String,
    pub entity_type: String,
    pub label_source: String,
    /// In hundredths.
    pub confidence: u8,
    /// The SDN id and the program, for a label of the SDN list.
    pub sdn: Option<(String, String)>,
}

/// What a `LabelSeed` holds, as plain mathematical values.
pub struct LabelSeedView {
    pub address: Seq<u8>,
    pub chain_id: Option<i64>,
    pub entity_name: Seq<char>,
    pub entity_type: Seq<char>,
    pub label_source: Seq<char>,
    pub confidence: u8,
    pub sdn: Option<(Seq<char>, Seq<char>)>,
}

impl View for LabelSeed {
    type V = LabelSeedView;

    open spec fn view(&self) -> LabelSeedView {
        LabelSeedView {
            address: self.address@,
            chain_id: self.chain_id,
            entity_name: self.entity_name@,
            entity_type: self.entity_type@,
            label_source: self.label_source@,
            confidence: self.confidence,
            sdn: match self.sdn {
                Some((id, program)) => Some((id@, program@)),
                None => None,
            },
        }
    }
}

/// The views of a run of seeds.
pub open spec fn seeds_view(seeds: Seq<LabelSeed>) -> Seq<LabelSeedView> {
    seeds.map_values(|s: LabelSeed| s@)
}

/// The seed of one address of an SDN entry: sanctioned, from the source
/// `ofac_sdn`, on every chain, with full confidence.
pub open spec fn ofac_seed(entry: OfacEntryView, address: Seq<u8>) -> LabelSeedView {
    LabelSeedView {
        address,
        chain_id: None,
        entity_name: entry.entity_name,
        entity_type: "sanctioned"@,
        label_source: "ofac_sdn"@,
        confidence: 100,
        sdn: Some((entry.sdn_id, entry.program)),
    }
}

/// The seeds of the first `n` addresses of an entry; an address that
/// does not parse is passed over.
pub open spec fn entry_seeds(entry: OfacEntryView, n: int) -> Seq<LabelSeedView>
    decreases n,
{
    if n <= 0 || n > entry.addresses.len() {
        Seq::empty()
    } else {
        let before = entry_seeds(entry, n - 1);
        match address_of_text(utf8(entry.addresses[n - 1])) {
            Some(a) => before.push(ofac_seed(entry, a)),
            None => before,
        }
    }
}

/// The seeds of a run of entries, in their order.
pub open spec fn ofac_seeds_of(entries: Seq<OfacEntryView>) -> Seq<LabelSeedView>
    decreases entries.len(),
{
    if entries.len() == 0 {
        Seq::empty()
    } else {
        ofac_seeds_of(entries.drop_last()) + entry_seeds(
            entries.last(),
            entries.last().addresses.len() as int,
        )
    }
}

/// The labels that the SDN entries seed: one for every address that parses.
pub fn seed_ofac_entries(entries: &[OfacEntry]) -> (seeds: Vec<LabelSeed>)
    ensures
        seeds_view(seeds@) == ofac_seeds_of(entries_view(entries@)),
{
    let mut seeds: Vec<LabelSeed> = Vec::new();
    let mut e: usize = 0;
    assert(entries_view(entries@).take(0) =~= Seq::<OfacEntryView>::empty());
    assert(seeds_view(seeds@) =~= Seq::<LabelSeedView>::empty());
    while e < entries.len()
        invariant
            e <= entries@.len(),
            seeds_view(seeds@) == ofac_seeds_of(entries_view(entries@).take(e as int)),
        decreases entries@.len() - e,
    {
        let entry = &entries[e];
        proof {
            let next = entries_view(entries@).take(e + 1);
            assert(next.drop_last() =~= entries_view(entries@).take(e as int));
            assert(next.last() == entry@);
        }
        let ghost start = seeds_view(seeds@);
        let mut a: usize = 0;
        assert(seeds_view(seeds@) =~= start + entry_seeds(entry@, 0));
        while a < entry.addresses.len()
            invariant
                a <= entry.addresses@.len(),
                seeds_view(seeds@) == start + entry_seeds(entry@, a as int),
            decreases entry.addresses@.len() - a,
        {
            let ghost before = seeds_view(seeds@);
            assert(entry@.addresses[a as int] == entry.addresses@[a as int]@);
            match parse_address(entry.addresses[a].as_str()) {
                Some(address) => {
                    let seed = LabelSeed {
                        address,
                        chain_id: None,
                        entity_name: entry.entity_name.clone(),
                        entity_type: String::from_str("sanctioned"),
                        label_source: String::from_str("ofac_sdn"),
                        confidence: 100,
                        sdn: Some((entry.sdn_id.clone(), entry.program.clone())),
                    };
                    let ghost sv = seed@;
                    seeds.push(seed);
                    assert(seeds_view(seeds@) =~= before.push(sv));
                    assert(before.push(sv) =~= start + entry_seeds(entry@, a as int).push(sv));
                },
                None => {},
            }
            a += 1;
        }
        e += 1;
    }
    assert(entries_view(entries@).take(entries@.len() as int) =~= entries_view(entries@));
    seeds
}

/// The seed of a label of the configuration, given its parsed address.
pub open spec fn manual_seed(label: ManualLabelConfig, address: Seq<u8>) -> LabelSeedView {
    LabelSeedView {
        address,
        chain_id: label.chain_id,
        entity_name: label.entity_name@,
        entity_type: label.entity_type@,
        label_source: label.source@,
        confidence: label.confidence,
        sdn: None,
    }
}

/// The seeds of the labels of the configuration; a label whose address
/// does not parse is passed over.
pub open spec fn manual_seeds_of(labels: Seq<ManualLabelConfig>) -> Seq<LabelSeedView>
    decreases labels.len(),
{
    if labels.len() == 0 {
        Seq::empty()
    } else {
        let before = manual_seeds_of(labels.drop_last());
        match address_of_text(utf8(labels.last().address@)) {
            Some(a) => before.push(manual_seed(labels.last(), a)),
            None => before,
        }
    }
}

/// The labels that the configuration seeds by hand.
pub fn seed_manual_labels(labels: &[ManualLabelConfig]) -> (seeds: Vec<LabelSeed>)
    ensures
        seeds_view(seeds@) == manual_seeds_of(labels@),
{
    let mut seeds: Vec<LabelSeed> = Vec::new();
    let mut i: usize = 0;
    assert(labels@.take(0) =~= Seq::<ManualLabelConfig>::empty());
    assert(seeds_view(seeds@) =~= Seq::<LabelSeedView>::empty());
    while i < labels.len()
        invariant
            i <= labels@.len(),
            seeds_view(seeds@) == manual_seeds_of(labels@.take(i as int)),
        decreases labels@.len() - i,
    {
        let label = &labels[i];
        proof {
            let next = labels@.take(i + 1);
            assert(next.drop_last() =~= labels@.take(i as int));
            assert(next.last() == *label);
        }
        let ghost before = seeds_view(seeds@);
        match parse_address(label.address.as_str()) {
            Some(address) => {
                let seed = LabelSeed {
                    address,
                    chain_id: label.chain_id,
                    entity_name: label.entity_name.clone(),
                    entity_type: label.entity_type.clone(),
                    label_source: label.source.clone(),
                    confidence: label.confidence,
                    sdn: None,
                };
                let ghost sv = seed@;
                seeds.push(seed);
                assert(seeds_view(seeds@) =~= before.push(sv));
            },
            None => {},
        }
        i += 1;
    }
    assert(labels@.take(labels@.len() as int) =~= labels@);
    seeds
}

} // verus!
