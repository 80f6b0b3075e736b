//! What a trace shows of buffs and held cards: names, icons and sources.

use vstd::prelude::*;
use vstd::string::{StringExecFns, StrSliceExecFns};
use crate::builder::dto::BuffMetadataInput;
use crate::builder::engraving::EngravingInput;
use crate::collections::{CardNameTable, MetadataTable, card_names, metadata_entries};
use crate::constants::{BuffDebuffTraceDetail, HeldCardTrace};
use crate::engine::buff::BuffSpec;
use crate::engine::cards::CardHand;
use crate::engine::sim::{display_buff_name, shown_name};
use crate::profile::{StatField, same_text};

verus! {

/// Display data of a buff: its name, icon and source.
pub struct BuffMetadata {
    pub name: String,
    pub icon: String,
    pub source: String,
}

/// A `BuffMetadata` by the text of its fields.
pub struct MetaView {
    pub name: Seq<char>,
    pub icon: Seq<char>,
    pub source: Seq<char>,
}

impl View for BuffMetadata {
    type V = MetaView;

    open spec fn view(&self) -> MetaView {
        MetaView { name: self.name@, icon: self.icon@, source: self.source@ }
    }
}

/// A `BuffDebuffTraceDetail` by the text of its fields.
pub struct DetailView {
    pub id: Seq<char>,
    pub name: Seq<char>,
    pub icon: Seq<char>,
    pub stacks: u32,
    pub source: Seq<char>,
}

impl View for BuffDebuffTraceDetail {
    type V = DetailView;

    open spec fn view(&self) -> DetailView {
        DetailView { id: self.id@, name: self.name@, icon: self.icon@, stacks: self.stacks, source: self.source@ }
    }
}

/// The id under which an engraving's display data is kept.
pub open spec fn engraving_key(name: Seq<char>) -> Seq<char> {
    "engraving:"@ + name + ":"@
}

/// The display data of the buffs given by id; a later entry wins.
pub open spec fn data_entries(buff_data: Seq<BuffMetadataInput>) -> Map<Seq<char>, MetaView>
    decreases buff_data.len(),
{
    if buff_data.len() == 0 {
        Map::empty()
    } else {
        let b = buff_data.last();
        data_entries(buff_data.drop_last()).insert(b.id@, MetaView { name: b.name@, icon: b.icon@, source: b.source@ })
    }
}

/// `m` with the display data of each engraving's buffs: no name, the engraving's icon,
/// and "각인 · " and its name as the source.
pub open spec fn with_engravings(m: Map<Seq<char>, MetaView>, engravings: Seq<EngravingInput>) -> Map<Seq<char>, MetaView>
    decreases engravings.len(),
{
    if engravings.len() == 0 {
        m
    } else {
        let e = engravings.last();
        with_engravings(m, engravings.drop_last()).insert(
            engraving_key(e.name@),
            MetaView { name: Seq::empty(), icon: e.icon@, source: "각인 · "@ + e.name@ },
        )
    }
}

/// Collects the display data of the buffs of a build: from the buff data, then one entry
/// per engraving.
pub fn buff_metadata(buff_data: &[BuffMetadataInput], engravings: &[EngravingInput]) -> (table: MetadataTable)
    ensures
        metadata_entries(table) == with_engravings(data_entries(buff_data@), engravings@),
{
    let mut table = MetadataTable::new();
    assert(metadata_entries(table) =~= data_entries(buff_data@.take(0)));
    let mut k: usize = 0;
    while k < buff_data.len()
        invariant
            0 <= k <= buff_data@.len(),
            metadata_entries(table) == data_entries(buff_data@.take(k as int)),
        decreases buff_data@.len() - k,
    {
        proof {
            assert(buff_data@.take(k as int + 1).drop_last() =~= buff_data@.take(k as int));
        }
        let b = &buff_data[k];
        table.insert(
            String::from_str(b.id.as_str()),
            BuffMetadata {
                name: String::from_str(b.name.as_str()),
                icon: String::from_str(b.icon.as_str()),
                source: String::from_str(b.source.as_str()),
            },
        );
        k += 1;
    }
    assert(buff_data@.take(buff_data@.len() as int) =~= buff_data@);
    let ghost base = metadata_entries(table);
    let mut j: usize = 0;
    while j < engravings.len()
        invariant
            0 <= j <= engravings@.len(),
            metadata_entries(table) == with_engravings(base, engravings@.take(j as int)),
        decreases engravings@.len() - j,
    {
        proof {
            assert(engravings@.take(j as int + 1).drop_last() =~= engravings@.take(j as int));
        }
        let e = &engravings[j];
        let mut key = String::from_str("engraving:");
        key.append(e.name.as_str());
        key.append(":");
        let mut source = String::from_str("각인 · ");
        source.append(e.name.as_str());
        let name = String::new();
        proof {
            assert(name@ =~= Seq::<char>::empty());
        }
        table.insert(key, BuffMetadata { name, icon: String::from_str(e.icon.as_str()), source });
        j += 1;
    }
    assert(engravings@.take(engravings@.len() as int) =~= engravings@);
    table
}

/// `c` is the first place of ':' in `s`.
pub open spec fn colon_at(s: Seq<char>, c: int) -> bool {
    0 <= c < s.len() && s[c] == ':' && forall|j: int| 0 <= j < c ==> #[trigger] s[j] != ':'
}

/// The display data of buff `id`: its own entry; else, for an id "engraving:NAME:...",
/// the entry of the engraving NAME.
pub open spec fn metadata_for(m: Map<Seq<char>, MetaView>, id: Seq<char>) -> Option<MetaView> {
    if m.contains_key(id) {
        Some(m[id])
    } else if id.len() >= 10 && id.subrange(0, 10) == "engraving:"@ {
        let rest = id.subrange(10, id.len() as int);
        if exists|c: int| colon_at(rest, c) {
            let key = engraving_key(rest.subrange(0, choose|c: int| colon_at(rest, c)));
            if m.contains_key(key) { Some(m[key]) } else { None }
        } else {
            None
        }
    } else {
        None
    }
}

proof fn lemma_colon_unique(s: Seq<char>, a: int, b: int)
    requires
        colon_at(s, a),
        colon_at(s, b),
    ensures
        a == b,
{
    if a < b {
        assert(s[a] != ':');
    } else if b < a {
        assert(s[b] != ':');
    }
}

/// The display data of buff `id`.
pub fn lookup_metadata<'a>(table: &'a MetadataTable, id: &str) -> (r: Option<&'a BuffMetadata>)
    ensures
        r matches Some(m) ==> metadata_for(metadata_entries(*table), id@) == Some(m@),
        r is None ==> metadata_for(metadata_entries(*table), id@) is None,
{
    match table.get(id) {
        Some(m) => return Some(m),
        None => {},
    }
    let n = id.unicode_len();
    if n < 10 {
        return None;
    }
    let head = id.substring_char(0, 10);
    if !same_text(head, "engraving:") {
        return None;
    }
    let rest = id.substring_char(10, n);
    let rn = rest.unicode_len();
    let mut c: usize = 0;
    while c < rn && rest.get_char(c) != ':'
        invariant
            rn == rest@.len(),
            0 <= c <= rn,
            forall|j: int| 0 <= j < c ==> #[trigger] rest@[j] != ':',
        decreases rn - c,
    {
        c += 1;
    }
    if c == rn {
        return None;
    }
    proof {
        assert(colon_at(rest@, c as int));
        lemma_colon_unique(rest@, c as int, choose|k: int| colon_at(rest@, k));
    }
    let name = rest.substring_char(0, c);
    let mut key = String::from_str("engraving:");
    key.append(name);
    key.append(":");
    table.get(key.as_str())
}

/// What a trace shows of a buff with `stacks` stacks: the name of its display data (else
/// the name made from the stats it changes), the icon (else none), and the source of its
/// display data (else `source`).
pub open spec fn detail_of(spec: BuffSpec, stacks: u32, fields: Seq<StatField>, source: Seq<char>, m: Map<Seq<char>, MetaView>) -> DetailView {
    let meta = metadata_for(m, spec.id@);
    DetailView {
        id: spec.id@,
        name: match meta {
            Some(v) => if v.name.len() > 0 { v.name } else { shown_name(spec.id@, fields, source) },
            None => shown_name(spec.id@, fields, source),
        },
        icon: match meta {
            Some(v) => v.icon,
            None => Seq::empty(),
        },
        stacks,
        source: match meta {
            Some(v) => if v.source.len() > 0 { v.source } else { source },
            None => source,
        },
    }
}

/// What a trace shows of one buff; `fields` are the stats that its effects change.
pub fn buff_trace_detail(spec: &BuffSpec, stacks: u32, fields: &[StatField], source: &str, table: &MetadataTable) -> (d: BuffDebuffTraceDetail)
    ensures
        d@ == detail_of(*spec, stacks, fields@, source@, metadata_entries(*table)),
{
    let meta = lookup_metadata(table, spec.id.as_str());
    let name = match meta {
        Some(m) => if m.name.as_str().is_empty() { display_buff_name(spec, fields, source) } else { String::from_str(m.name.as_str()) },
        None => display_buff_name(spec, fields, source),
    };
    let icon = match meta {
        Some(m) => String::from_str(m.icon.as_str()),
        None => {
            let e = String::new();
            proof {
                assert(e@ =~= Seq::<char>::empty());
            }
            e
        },
    };
    let shown_source = match meta {
        Some(m) => if m.source.as_str().is_empty() { String::from_str(source) } else { String::from_str(m.source.as_str()) },
        None => String::from_str(source),
    };
    BuffDebuffTraceDetail { id: String::from_str(spec.id.as_str()), name, icon, stacks, source: shown_source }
}

/// What a trace shows of each buff with its stacks; `fields[i]` are the stats that the
/// effects of the `i`-th buff change.
pub fn buff_trace_details(buffs: &[(BuffSpec, u32)], fields: &[Vec<StatField>], source: &str, table: &MetadataTable)
    -> (details: Vec<BuffDebuffTraceDetail>)
    requires
        fields@.len() == buffs@.len(),
    ensures
        details@.len() == buffs@.len(),
        forall|i: int| 0 <= i < buffs@.len() ==> (#[trigger] details@[i])@
            == detail_of(buffs@[i].0, buffs@[i].1, fields@[i]@, source@, metadata_entries(*table)),
{
    let mut details: Vec<BuffDebuffTraceDetail> = Vec::new();
    let mut k: usize = 0;
    while k < buffs.len()
        invariant
            0 <= k <= buffs@.len(),
            fields@.len() == buffs@.len(),
            details@.len() == k,
            forall|i: int| 0 <= i < k ==> (#[trigger] details@[i])@
                == detail_of(buffs@[i].0, buffs@[i].1, fields@[i]@, source@, metadata_entries(*table)),
        decreases buffs@.len() - k,
    {
        let d = buff_trace_detail(&buffs[k].0, buffs[k].1, fields[k].as_slice(), source, table);
        details.push(d);
        k += 1;
    }
    details
}

/// The digit `d` as a character.
pub open spec fn digit_char(d: nat) -> char {
    if d == 0 { '0' } else if d == 1 { '1' } else if d == 2 { '2' } else if d == 3 { '3' } else if d == 4 { '4' }
    else if d == 5 { '5' } else if d == 6 { '6' } else if d == 7 { '7' } else if d == 8 { '8' } else { '9' }
}

/// `n` in decimal digits, without leading zeros.
pub open spec fn decimal(n: nat) -> Seq<char>
    decreases n,
{
    if n < 10 { seq![digit_char(n)] } else { decimal(n / 10).push(digit_char(n % 10)) }
}

fn digit_text(d: u32) -> (s: &'static str)
    requires
        d < 10,
    ensures
        s@ == seq![digit_char(d as nat)],
{
    proof {
        reveal_strlit("0");
        reveal_strlit("1");
        reveal_strlit("2");
        reveal_strlit("3");
        reveal_strlit("4");
        reveal_strlit("5");
        reveal_strlit("6");
        reveal_strlit("7");
        reveal_strlit("8");
        reveal_strlit("9");
    }
    match d {
        0 => "0",
        1 => "1",
        2 => "2",
        3 => "3",
        4 => "4",
        5 => "5",
        6 => "6",
        7 => "7",
        8 => "8",
        _ => "9",
    }
}

/// `n` written in decimal, as `u32::to_string` writes it.
pub fn decimal_text(n: u32) -> (s: String)
    ensures
        s@ == decimal(n as nat),
    decreases n,
{
    if n < 10 {
        String::from_str(digit_text(n))
    } else {
        let mut s = decimal_text(n / 10);
        s.append(digit_text(n % 10));
        s
    }
}

/// The name a trace shows for card `id`: its name, else its id in decimal.
pub open spec fn card_label(names: Map<u32, Seq<char>>, id: u32) -> Seq<char> {
    if names.contains_key(id) { names[id] } else { decimal(id as nat) }
}

/// What a trace shows of the held cards, in order.
pub fn held_card_details(hand: &CardHand, names: &CardNameTable) -> (details: Vec<HeldCardTrace>)
    ensures
        details@.len() == hand.held().len(),
        forall|i: int| 0 <= i < hand.held().len() ==> (#[trigger] details@[i]).card_id == hand.held()[i]
            && details@[i].card_name@ == card_label(card_names(*names), hand.held()[i]),
{
    let held = hand.held_cards();
    let mut details: Vec<HeldCardTrace> = Vec::new();
    let mut k: usize = 0;
    while k < held.len()
        invariant
            0 <= k <= held@.len(),
            held@ == hand.held(),
            details@.len() == k,
            forall|i: int| 0 <= i < k ==> (#[trigger] details@[i]).card_id == held@[i]
                && details@[i].card_name@ == card_label(card_names(*names), held@[i]),
        decreases held@.len() - k,
    {
        let id = held[k];
        let card_name = match names.get(id) {
            Some(n) => String::from_str(n.as_str()),
            None => decimal_text(id),
        };
        details.push(HeldCardTrace { card_id: id, card_name });
        k += 1;
    }
    details
}

} // verus!
