//! RTCP compound packets (RFC 3550, section 6.1): the first packet is a
//! sender or receiver report, and a source description with a CNAME item
//! follows before any other kind of packet.
use vstd::prelude::*;
use crate::rtcp::RtcpError;

verus! {

/// The SDES item type of a canonical name.
pub const SDES_CNAME: u8 = 1;

/// An item of a source description chunk.
#[derive(Debug)]
pub struct SourceDescriptionItem {
    pub sdes_type: u8,
    pub text: String,
}

/// A chunk of a source description: the items of one source.
#[derive(Debug)]
pub struct SourceDescriptionChunk {
    pub source: u32,
    pub items: Vec<SourceDescriptionItem>,
}

/// A packet of a compound packet, with what the rules of the compound
/// packet read of it: its kind, the chunks of a source description, and
/// the synchronization sources its reports are about.
#[derive(Debug)]
pub enum CompoundMember {
    SenderReport { destination_ssrc: Vec<u32> },
    ReceiverReport { destination_ssrc: Vec<u32> },
    SourceDescription { chunks: Vec<SourceDescriptionChunk> },
    Other { destination_ssrc: Vec<u32> },
}

/// A collection of RTCP packets sent as one.
#[derive(Debug)]
pub struct CompoundPacket(pub Vec<CompoundMember>);

/// An item by its type and text.
pub open spec fn item_view(i: SourceDescriptionItem) -> (u8, Seq<char>) {
    (i.sdes_type, i.text@)
}

/// The items of a chunk by their views.
pub open spec fn chunk_view(c: SourceDescriptionChunk) -> Seq<(u8, Seq<char>)> {
    c.items@.map_values(|i: SourceDescriptionItem| item_view(i))
}

/// The chunks of a source description by their views.
pub open spec fn chunks_view(cs: Seq<SourceDescriptionChunk>) -> Seq<Seq<(u8, Seq<char>)>> {
    cs.map_values(|c: SourceDescriptionChunk| chunk_view(c))
}

/// A member of a compound packet as what the rules read of it.
pub enum MemberView {
    SenderReport,
    ReceiverReport,
    SourceDescription(Seq<Seq<(u8, Seq<char>)>>),
    Other,
}

pub open spec fn member_view(m: CompoundMember) -> MemberView {
    match m {
        CompoundMember::SenderReport { .. } => MemberView::SenderReport,
        CompoundMember::ReceiverReport { .. } => MemberView::ReceiverReport,
        CompoundMember::SourceDescription { chunks } => MemberView::SourceDescription(
            chunks_view(chunks@),
        ),
        CompoundMember::Other { .. } => MemberView::Other,
    }
}

impl View for CompoundPacket {
    type V = Seq<MemberView>;

    open spec fn view(&self) -> Seq<MemberView> {
        self.0@.map_values(|m: CompoundMember| member_view(m))
    }
}

/// Whether a chunk has a CNAME item.
pub open spec fn has_cname(items: Seq<(u8, Seq<char>)>) -> bool {
    exists|k: int| 0 <= k < items.len() && (#[trigger] items[k]).0 == SDES_CNAME
}

/// The rules from the packet at `i` on, after the first: receiver
/// reports may come, then the first source description with a chunk
/// decides by whether its first chunk has a CNAME; a source description
/// without chunks is passed over; any other packet comes too early.
pub open spec fn validate_from(ps: Seq<MemberView>, i: int) -> Result<(), RtcpError>
    decreases ps.len() - i,
{
    if i < 0 || i >= ps.len() {
        Err(RtcpError::ErrMissingCname)
    } else {
        match ps[i] {
            MemberView::ReceiverReport => validate_from(ps, i + 1),
            MemberView::SourceDescription(chunks) => if chunks.len() == 0 {
                validate_from(ps, i + 1)
            } else if has_cname(chunks[0]) {
                Ok(())
            } else {
                Err(RtcpError::ErrMissingCname)
            },
            _ => Err(RtcpError::ErrPacketBeforeCname),
        }
    }
}

/// Whether a compound packet keeps the rules, or the first rule it breaks.
pub open spec fn validate_spec(ps: Seq<MemberView>) -> Result<(), RtcpError> {
    if ps.len() == 0 {
        Err(RtcpError::ErrEmptyCompound)
    } else if !(ps[0] is SenderReport || ps[0] is ReceiverReport) {
        Err(RtcpError::ErrBadFirstPacket)
    } else {
        validate_from(ps, 1)
    }
}

/// The text of the first CNAME item of the items.
pub open spec fn item_cname(items: Seq<(u8, Seq<char>)>) -> Option<Seq<char>>
    decreases items.len(),
{
    if items.len() == 0 {
        None
    } else if items[0].0 == SDES_CNAME {
        Some(items[0].1)
    } else {
        item_cname(items.drop_first())
    }
}

/// The text of the first CNAME item of the chunks, in order.
pub open spec fn chunks_cname(chunks: Seq<Seq<(u8, Seq<char>)>>) -> Option<Seq<char>>
    decreases chunks.len(),
{
    if chunks.len() == 0 {
        None
    } else {
        match item_cname(chunks[0]) {
            Some(t) => Some(t),
            None => chunks_cname(chunks.drop_first()),
        }
    }
}

/// The CNAME found from the packet at `i` on: receiver reports and source
/// descriptions without one are passed over, any other packet comes
/// before the CNAME.
pub open spec fn cname_from(ps: Seq<MemberView>, i: int) -> Result<Seq<char>, RtcpError>
    decreases ps.len() - i,
{
    if i < 0 || i >= ps.len() {
        Err(RtcpError::ErrMissingCname)
    } else {
        match ps[i] {
            MemberView::SourceDescription(chunks) => match chunks_cname(chunks) {
                Some(t) => Ok(t),
                None => cname_from(ps, i + 1),
            },
            MemberView::ReceiverReport => cname_from(ps, i + 1),
            _ => Err(RtcpError::ErrPacketBeforeCname),
        }
    }
}

/// The CNAME of a compound packet, looked for after its first packet.
pub open spec fn cname_spec(ps: Seq<MemberView>) -> Result<Seq<char>, RtcpError> {
    if ps.len() == 0 {
        Err(RtcpError::ErrEmptyCompound)
    } else {
        cname_from(ps, 1)
    }
}

fn items_have_cname(items: &Vec<SourceDescriptionItem>) -> (r: bool)
    ensures
        r == has_cname(items@.map_values(|i: SourceDescriptionItem| item_view(i))),
{
    let ghost v = items@.map_values(|i: SourceDescriptionItem| item_view(i));
    let mut found = false;
    let mut k: usize = 0;
    while k < items.len()
        invariant
            k <= items@.len(),
            v == items@.map_values(|i: SourceDescriptionItem| item_view(i)),
            found == exists|j: int| 0 <= j < k && (#[trigger] v[j]).0 == SDES_CNAME,
        decreases items@.len() - k,
    {
        if items[k].sdes_type == SDES_CNAME {
            assert(v[k as int].0 == SDES_CNAME);
            found = true;
        }
        k = k + 1;
    }
    found
}

fn items_cname(items: &Vec<SourceDescriptionItem>) -> (r: Option<String>)
    ensures
        match item_cname(items@.map_values(|i: SourceDescriptionItem| item_view(i))) {
            Some(t) => r matches Some(s) && s@ == t,
            None => r is None,
        },
{
    let ghost v = items@.map_values(|i: SourceDescriptionItem| item_view(i));
    let mut k: usize = 0;
    assert(v.subrange(0, v.len() as int) =~= v);
    while k < items.len()
        invariant
            k <= items@.len(),
            v == items@.map_values(|i: SourceDescriptionItem| item_view(i)),
            item_cname(v) == item_cname(v.subrange(k as int, v.len() as int)),
        decreases items@.len() - k,
    {
        let ghost rest = v.subrange(k as int, v.len() as int);
        assert(rest[0] == v[k as int]);
        assert(rest.drop_first() =~= v.subrange(k + 1, v.len() as int));
        if items[k].sdes_type == SDES_CNAME {
            return Some(items[k].text.clone());
        }
        k = k + 1;
    }
    None
}

fn chunks_cname_of(chunks: &Vec<SourceDescriptionChunk>) -> (r: Option<String>)
    ensures
        match chunks_cname(chunks_view(chunks@)) {
            Some(t) => r matches Some(s) && s@ == t,
            None => r is None,
        },
{
    let ghost v = chunks_view(chunks@);
    let mut k: usize = 0;
    assert(v.subrange(0, v.len() as int) =~= v);
    while k < chunks.len()
        invariant
            k <= chunks@.len(),
            v == chunks_view(chunks@),
            chunks_cname(v) == chunks_cname(v.subrange(k as int, v.len() as int)),
        decreases chunks@.len() - k,
    {
        let ghost rest = v.subrange(k as int, v.len() as int);
        assert(rest[0] == v[k as int]);
        assert(rest.drop_first() =~= v.subrange(k + 1, v.len() as int));
        match items_cname(&chunks[k].items) {
            Some(t) => return Some(t),
            None => {},
        }
        k = k + 1;
    }
    None
}

impl CompoundPacket {
    /// Whether this is a compound packet as RFC 3550 allows it, or the
    /// first rule it breaks.
    pub fn validate(&self) -> (r: Result<(), RtcpError>)
        ensures
            r == validate_spec(self@),
    {
        let ghost v = self@;
        if self.0.len() == 0 {
            return Err(RtcpError::ErrEmptyCompound);
        }
        match &self.0[0] {
            CompoundMember::SenderReport { .. } => {},
            CompoundMember::ReceiverReport { .. } => {},
            _ => {
                return Err(RtcpError::ErrBadFirstPacket);
            },
        }
        let mut i: usize = 1;
        while i < self.0.len()
            invariant
                1 <= i <= self.0@.len(),
                v == self@,
                v.len() == self.0@.len(),
                validate_spec(v) == validate_from(v, i as int),
            decreases self.0@.len() - i,
        {
            assert(v[i as int] == member_view(self.0@[i as int]));
            match &self.0[i] {
                CompoundMember::ReceiverReport { .. } => {},
                CompoundMember::SourceDescription { chunks } => {
                    if chunks.len() > 0 {
                        assert(chunks_view(chunks@)[0] == chunk_view(chunks@[0]));
                        if items_have_cname(&chunks[0].items) {
                            return Ok(());
                        }
                        return Err(RtcpError::ErrMissingCname);
                    }
                },
                _ => {
                    return Err(RtcpError::ErrPacketBeforeCname);
                },
            }
            i = i + 1;
        }
        Err(RtcpError::ErrMissingCname)
    }

    /// The CNAME that every compound packet must carry.
    pub fn cname(&self) -> (r: Result<String, RtcpError>)
        ensures
            match cname_spec(self@) {
                Ok(t) => r matches Ok(s) && s@ == t,
                Err(e) => r == Err::<String, RtcpError>(e),
            },
    {
        let ghost v = self@;
        if self.0.len() == 0 {
            return Err(RtcpError::ErrEmptyCompound);
        }
        let mut i: usize = 1;
        while i < self.0.len()
            invariant
                1 <= i <= self.0@.len(),
                v == self@,
                v.len() == self.0@.len(),
                cname_spec(v) == cname_from(v, i as int),
            decreases self.0@.len() - i,
        {
            assert(v[i as int] == member_view(self.0@[i as int]));
            match &self.0[i] {
                CompoundMember::SourceDescription { chunks } => {
                    match chunks_cname_of(chunks) {
                        Some(t) => return Ok(t),
                        None => {},
                    }
                },
                CompoundMember::ReceiverReport { .. } => {},
                _ => {
                    return Err(RtcpError::ErrPacketBeforeCname);
                },
            }
            i = i + 1;
        }
        Err(RtcpError::ErrMissingCname)
    }

    /// The synchronization sources that the first packet reports on.
    pub fn destination_ssrc(&self) -> (r: Vec<u32>)
        ensures
            self.0@.len() == 0 ==> r@.len() == 0,
            self.0@.len() > 0 ==> r@ == match self.0@[0] {
                CompoundMember::SenderReport { destination_ssrc } => destination_ssrc@,
                CompoundMember::ReceiverReport { destination_ssrc } => destination_ssrc@,
                CompoundMember::SourceDescription { chunks } => chunks@.map_values(
                    |c: SourceDescriptionChunk| c.source,
                ),
                CompoundMember::Other { destination_ssrc } => destination_ssrc@,
            },
    {
        if self.0.len() == 0 {
            return Vec::new();
        }
        match &self.0[0] {
            CompoundMember::SenderReport { destination_ssrc } => destination_ssrc.clone(),
            CompoundMember::ReceiverReport { destination_ssrc } => destination_ssrc.clone(),
            CompoundMember::SourceDescription { chunks } => {
                let mut out: Vec<u32> = Vec::new();
                let mut k: usize = 0;
                while k < chunks.len()
                    invariant
                        k <= chunks@.len(),
                        out@ == chunks@.take(k as int).map_values(|c: SourceDescriptionChunk| c.source),
                    decreases chunks@.len() - k,
                {
                    out.push(chunks[k].source);
                    k = k + 1;
                    assert(out@ =~= chunks@.take(k as int).map_values(
                        |c: SourceDescriptionChunk| c.source,
                    ));
                }
                assert(chunks@.take(chunks@.len() as int) =~= chunks@);
                out
            },
            CompoundMember::Other { destination_ssrc } => destination_ssrc.clone(),
        }
    }
}

proof fn lemma_has_cname_found(items: Seq<(u8, Seq<char>)>)
    requires
        has_cname(items),
    ensures
        item_cname(items) is Some,
    decreases items.len(),
{
    if items[0].0 != SDES_CNAME {
        let k = choose|k: int| 0 <= k < items.len() && (#[trigger] items[k]).0 == SDES_CNAME;
        assert(items.drop_first()[k - 1] == items[k]);
        lemma_has_cname_found(items.drop_first());
    }
}

proof fn lemma_valid_from_has_cname(ps: Seq<MemberView>, i: int)
    requires
        validate_from(ps, i) is Ok,
    ensures
        cname_from(ps, i) is Ok,
    decreases ps.len() - i,
{
    if 0 <= i < ps.len() {
        match ps[i] {
            MemberView::ReceiverReport => lemma_valid_from_has_cname(ps, i + 1),
            MemberView::SourceDescription(chunks) => {
                if chunks.len() == 0 {
                    lemma_valid_from_has_cname(ps, i + 1);
                } else {
                    lemma_has_cname_found(chunks[0]);
                }
            },
            _ => {},
        }
    }
}

/// A compound packet that keeps the rules begins with a sender or
/// receiver report and carries a CNAME.
pub proof fn lemma_valid_has_cname(ps: Seq<MemberView>)
    requires
        validate_spec(ps) is Ok,
    ensures
        ps[0] is SenderReport || ps[0] is ReceiverReport,
        cname_spec(ps) is Ok,
{
    lemma_valid_from_has_cname(ps, 1);
}

} // verus!
