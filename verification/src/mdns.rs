//! Incremental building of a DNS message: a header, then the question,
//! answer, authority and additional sections in that order, each entry
//! counted in the header.
use vstd::prelude::*;
use crate::bytes::{be16, push_be16};

verus! {

/// The length of a DNS message header in bytes.
pub const HEADER_LEN: usize = 12;

/// Response flag of the header bits.
pub const HEADER_BIT_QR: u16 = 1 << 15;
/// Authoritative-answer flag.
pub const HEADER_BIT_AA: u16 = 1 << 10;
/// Truncation flag.
pub const HEADER_BIT_TC: u16 = 1 << 9;
/// Recursion-desired flag.
pub const HEADER_BIT_RD: u16 = 1 << 8;
/// Recursion-available flag.
pub const HEADER_BIT_RA: u16 = 1 << 7;

/// Why the builder refused a step.
#[derive(Debug, Clone, Copy, PartialEq, Eq)]
pub enum MdnsError {
    /// The section asked for has not been started.
    ErrNotStarted,
    /// The section asked for is already done.
    ErrSectionDone,
    /// Entries cannot be added to the header.
    ErrSectionHeader,
    ErrTooManyQuestions,
    ErrTooManyAnswers,
    ErrTooManyAuthorities,
    ErrTooManyAdditionals,
    /// The builder holds no message.
    ErrEmptyBuilderMsg,
}

/// The part of a message being built.
#[derive(Debug, Clone, Copy, PartialEq, Eq)]
pub enum Section {
    NotStarted,
    Header,
    Questions,
    Answers,
    Authorities,
    Additionals,
    Done,
}

impl Section {
    /// The place of the section in the order of a message.
    pub open spec fn rank(self) -> int {
        match self {
            Section::NotStarted => 0,
            Section::Header => 1,
            Section::Questions => 2,
            Section::Answers => 3,
            Section::Authorities => 4,
            Section::Additionals => 5,
            Section::Done => 6,
        }
    }

    /// The place of the section in the order of a message.
    pub fn order(&self) -> (r: u8)
        ensures
            r == self.rank(),
    {
        match self {
            Section::NotStarted => 0,
            Section::Header => 1,
            Section::Questions => 2,
            Section::Answers => 3,
            Section::Authorities => 4,
            Section::Additionals => 5,
            Section::Done => 6,
        }
    }
}

/// The header of a DNS message as its fields.
#[derive(Debug, Clone, Copy, PartialEq, Eq)]
pub struct Header {
    pub id: u16,
    pub response: bool,
    pub op_code: u16,
    pub authoritative: bool,
    pub truncated: bool,
    pub recursion_desired: bool,
    pub recursion_available: bool,
    pub rcode: u16,
}

/// The flag bits of a header: the operation code from bit 11 up, the
/// response code in the low bits, and the five flags.
pub open spec fn header_bits(h: Header) -> u16 {
    (((h.op_code << 11u16) | h.rcode) | (if h.recursion_available {
        HEADER_BIT_RA
    } else {
        0
    }) | (if h.recursion_desired {
        HEADER_BIT_RD
    } else {
        0
    }) | (if h.truncated {
        HEADER_BIT_TC
    } else {
        0
    }) | (if h.authoritative {
        HEADER_BIT_AA
    } else {
        0
    }) | (if h.response {
        HEADER_BIT_QR
    } else {
        0
    })) as u16
}

impl Header {
    /// The identifier and the flag bits of the header.
    pub fn pack(&self) -> (r: (u16, u16))
        ensures
            r == (self.id, header_bits(*self)),
    {
        let ra: u16 = if self.recursion_available {
            HEADER_BIT_RA
        } else {
            0
        };
        let rd: u16 = if self.recursion_desired {
            HEADER_BIT_RD
        } else {
            0
        };
        let tc: u16 = if self.truncated {
            HEADER_BIT_TC
        } else {
            0
        };
        let aa: u16 = if self.authoritative {
            HEADER_BIT_AA
        } else {
            0
        };
        let qr: u16 = if self.response {
            HEADER_BIT_QR
        } else {
            0
        };
        let bits: u16 = ((self.op_code << 11u16) | self.rcode) | ra | rd | tc | aa | qr;
        (self.id, bits)
    }
}

/// The header as it is written: identifier, flag bits and the four
/// section counts.
#[derive(Debug, Clone, Copy, PartialEq, Eq, Default)]
pub struct HeaderInternal {
    pub id: u16,
    pub bits: u16,
    pub questions: u16,
    pub answers: u16,
    pub authorities: u16,
    pub additionals: u16,
}

/// The twelve bytes of a header: six big-endian 16-bit fields.
pub open spec fn header_bytes(h: HeaderInternal) -> Seq<u8> {
    be16(h.id) + be16(h.bits) + be16(h.questions) + be16(h.answers) + be16(h.authorities) + be16(
        h.additionals,
    )
}

impl HeaderInternal {
    /// Appends the twelve header bytes to `msg`.
    pub fn pack(&self, msg: Vec<u8>) -> (r: Vec<u8>)
        ensures
            r@ == msg@ + header_bytes(*self),
    {
        let mut msg = msg;
        let ghost m0 = msg@;
        push_be16(&mut msg, self.id);
        push_be16(&mut msg, self.bits);
        push_be16(&mut msg, self.questions);
        push_be16(&mut msg, self.answers);
        push_be16(&mut msg, self.authorities);
        push_be16(&mut msg, self.additionals);
        assert(msg@ =~= m0 + header_bytes(*self));
        msg
    }
}

/// A DNS message under construction.
#[derive(Debug)]
pub struct Builder {
    msg: Option<Vec<u8>>,
    section: Section,
    header: HeaderInternal,
    compression: bool,
}

impl Builder {
    /// The bytes built so far, if the builder holds a message.
    pub closed spec fn spec_msg(&self) -> Option<Seq<u8>> {
        match self.msg {
            Some(m) => Some(m@),
            None => None,
        }
    }

    /// The section being built.
    pub closed spec fn spec_section(&self) -> Section {
        self.section
    }

    /// What the header will say when the message is finished.
    pub closed spec fn spec_header(&self) -> HeaderInternal {
        self.header
    }

    /// Whether names are to be compressed.
    pub closed spec fn spec_compression(&self) -> bool {
        self.compression
    }

    /// A held message has room for the header at its start.
    pub open spec fn wf(&self) -> bool {
        self.spec_msg() matches Some(m) ==> m.len() >= HEADER_LEN
    }

    /// A builder that holds no message and has started nothing.
    pub fn empty() -> (r: Builder)
        ensures
            r.wf(),
            r.spec_msg() is None,
            r.spec_section() == Section::NotStarted,
            r.spec_header() == HeaderInternal::default_spec(),
            !r.spec_compression(),
    {
        Builder {
            msg: None,
            section: Section::NotStarted,
            header: HeaderInternal {
                id: 0,
                bits: 0,
                questions: 0,
                answers: 0,
                authorities: 0,
                additionals: 0,
            },
            compression: false,
        }
    }

    /// A builder for a message with header `h`, compression disabled: the
    /// message starts as twelve zero bytes that `finish` fills in.
    pub fn new(h: &Header) -> (r: Builder)
        ensures
            r.wf(),
            r.spec_msg() == Some(Seq::new(HEADER_LEN as nat, |i: int| 0u8)),
            r.spec_section() == Section::Header,
            r.spec_header() == (HeaderInternal {
                id: h.id,
                bits: header_bits(*h),
                questions: 0,
                answers: 0,
                authorities: 0,
                additionals: 0,
            }),
            !r.spec_compression(),
    {
        let (id, bits) = h.pack();
        let msg: Vec<u8> = vec![0u8; HEADER_LEN];
        assert(msg@ =~= Seq::new(HEADER_LEN as nat, |i: int| 0u8));
        Builder {
            msg: Some(msg),
            section: Section::Header,
            header: HeaderInternal {
                id,
                bits,
                questions: 0,
                answers: 0,
                authorities: 0,
                additionals: 0,
            },
            compression: false,
        }
    }

    /// Whether names are to be compressed: the packer of the questions and
    /// resources that are added (which hands this builder their wire form)
    /// asks this before packing their names.
    pub fn compression_enabled(&self) -> (r: bool)
        ensures
            r == self.spec_compression(),
    {
        self.compression
    }

    /// Turns on compression of names.
    pub fn enable_compression(&mut self)
        ensures
            final(self).spec_msg() == old(self).spec_msg(),
            final(self).spec_section() == old(self).spec_section(),
            final(self).spec_header() == old(self).spec_header(),
            final(self).spec_compression(),
    {
        self.compression = true;
    }

    fn start_check(&self, section: Section) -> (r: Result<(), MdnsError>)
        ensures
            r == start_outcome(self.section, section),
    {
        if self.section.order() <= Section::NotStarted.order() {
            return Err(MdnsError::ErrNotStarted);
        }
        if self.section.order() > section.order() {
            return Err(MdnsError::ErrSectionDone);
        }
        Ok(())
    }

    fn start(&mut self, section: Section) -> (r: Result<(), MdnsError>)
        ensures
            r == start_outcome(old(self).spec_section(), section),
            final(self).spec_msg() == old(self).spec_msg(),
            final(self).spec_header() == old(self).spec_header(),
            final(self).spec_compression() == old(self).spec_compression(),
            final(self).spec_section() == (if r is Ok {
                section
            } else {
                old(self).spec_section()
            }),
    {
        match self.start_check(section) {
            Ok(()) => {
                self.section = section;
                Ok(())
            },
            Err(e) => Err(e),
        }
    }

    /// Begins the question section.
    pub fn start_questions(&mut self) -> (r: Result<(), MdnsError>)
        requires
            old(self).wf(),
        ensures
            final(self).wf(),
            r == start_outcome(old(self).spec_section(), Section::Questions),
            final(self).spec_msg() == old(self).spec_msg(),
            final(self).spec_header() == old(self).spec_header(),
            final(self).spec_compression() == old(self).spec_compression(),
            final(self).spec_section() == (if r is Ok {
                Section::Questions
            } else {
                old(self).spec_section()
            }),
    {
        self.start(Section::Questions)
    }

    /// Begins the answer section.
    pub fn start_answers(&mut self) -> (r: Result<(), MdnsError>)
        requires
            old(self).wf(),
        ensures
            final(self).wf(),
            r == start_outcome(old(self).spec_section(), Section::Answers),
            final(self).spec_msg() == old(self).spec_msg(),
            final(self).spec_header() == old(self).spec_header(),
            final(self).spec_compression() == old(self).spec_compression(),
            final(self).spec_section() == (if r is Ok {
                Section::Answers
            } else {
                old(self).spec_section()
            }),
    {
        self.start(Section::Answers)
    }

    /// Begins the authority section.
    pub fn start_authorities(&mut self) -> (r: Result<(), MdnsError>)
        requires
            old(self).wf(),
        ensures
            final(self).wf(),
            r == start_outcome(old(self).spec_section(), Section::Authorities),
            final(self).spec_msg() == old(self).spec_msg(),
            final(self).spec_header() == old(self).spec_header(),
            final(self).spec_compression() == old(self).spec_compression(),
            final(self).spec_section() == (if r is Ok {
                Section::Authorities
            } else {
                old(self).spec_section()
            }),
    {
        self.start(Section::Authorities)
    }

    /// Begins the additional section.
    pub fn start_additionals(&mut self) -> (r: Result<(), MdnsError>)
        requires
            old(self).wf(),
        ensures
            final(self).wf(),
            r == start_outcome(old(self).spec_section(), Section::Additionals),
            final(self).spec_msg() == old(self).spec_msg(),
            final(self).spec_header() == old(self).spec_header(),
            final(self).spec_compression() == old(self).spec_compression(),
            final(self).spec_section() == (if r is Ok {
                Section::Additionals
            } else {
                old(self).spec_section()
            }),
    {
        self.start(Section::Additionals)
    }

    fn increment_section_count(&mut self) -> (r: Result<(), MdnsError>)
        ensures
            r == count_outcome(old(self).spec_section(), old(self).spec_header()),
            final(self).spec_header() == (if r is Ok {
                counted(old(self).spec_section(), old(self).spec_header())
            } else {
                old(self).spec_header()
            }),
            final(self).msg == old(self).msg,
            final(self).section == old(self).section,
            final(self).compression == old(self).compression,
    {
        match self.section {
            Section::Questions => {
                if self.header.questions == u16::MAX {
                    return Err(MdnsError::ErrTooManyQuestions);
                }
                self.header.questions = self.header.questions + 1;
            },
            Section::Answers => {
                if self.header.answers == u16::MAX {
                    return Err(MdnsError::ErrTooManyAnswers);
                }
                self.header.answers = self.header.answers + 1;
            },
            Section::Authorities => {
                if self.header.authorities == u16::MAX {
                    return Err(MdnsError::ErrTooManyAuthorities);
                }
                self.header.authorities = self.header.authorities + 1;
            },
            Section::Additionals => {
                if self.header.additionals == u16::MAX {
                    return Err(MdnsError::ErrTooManyAdditionals);
                }
                self.header.additionals = self.header.additionals + 1;
            },
            Section::NotStarted => return Err(MdnsError::ErrNotStarted),
            Section::Done => return Err(MdnsError::ErrSectionDone),
            Section::Header => return Err(MdnsError::ErrSectionHeader),
        }
        Ok(())
    }

    /// Adds one question, given in its wire form, to the question section.
    /// Where the count is already at its limit the message is dropped.
    pub fn add_question(&mut self, q: &[u8]) -> (r: Result<(), MdnsError>)
        requires
            old(self).wf(),
        ensures
            final(self).wf(),
            final(self).spec_section() == old(self).spec_section(),
            final(self).spec_compression() == old(self).spec_compression(),
            old(self).spec_section().rank() < Section::Questions.rank() ==> r == Err::<
                (),
                MdnsError,
            >(MdnsError::ErrNotStarted) && final(self).spec_msg() == old(self).spec_msg()
                && final(self).spec_header() == old(self).spec_header(),
            old(self).spec_section().rank() > Section::Questions.rank() ==> r == Err::<
                (),
                MdnsError,
            >(MdnsError::ErrSectionDone) && final(self).spec_msg() == old(self).spec_msg()
                && final(self).spec_header() == old(self).spec_header(),
            old(self).spec_section() == Section::Questions ==> match old(self).spec_msg() {
                None => r is Ok && final(self).spec_msg() is None && final(self).spec_header()
                    == old(self).spec_header(),
                Some(m) => if old(self).spec_header().questions == u16::MAX {
                    r == Err::<(), MdnsError>(MdnsError::ErrTooManyQuestions)
                        && final(self).spec_msg() is None && final(self).spec_header()
                        == old(self).spec_header()
                } else {
                    r is Ok && final(self).spec_msg() == Some(m + q@) && final(self).spec_header()
                        == counted(Section::Questions, old(self).spec_header())
                },
            },
    {
        if self.section.order() < Section::Questions.order() {
            return Err(MdnsError::ErrNotStarted);
        }
        if self.section.order() > Section::Questions.order() {
            return Err(MdnsError::ErrSectionDone);
        }
        let msg = self.msg.take();
        if let Some(mut msg) = msg {
            let ghost m0 = msg@;
            msg.extend_from_slice(q);
            match self.increment_section_count() {
                Ok(()) => {},
                Err(e) => return Err(e),
            }
            self.msg = Some(msg);
            assert(self.spec_msg() == Some(m0 + q@));
        }
        Ok(())
    }

    fn check_resource_section(&self) -> (r: Result<(), MdnsError>)
        ensures
            self.section.rank() < Section::Answers.rank() ==> r == Err::<(), MdnsError>(
                MdnsError::ErrNotStarted,
            ),
            self.section.rank() > Section::Additionals.rank() ==> r == Err::<(), MdnsError>(
                MdnsError::ErrSectionDone,
            ),
            Section::Answers.rank() <= self.section.rank() <= Section::Additionals.rank() ==> r
                is Ok,
    {
        if self.section.order() < Section::Answers.order() {
            return Err(MdnsError::ErrNotStarted);
        }
        if self.section.order() > Section::Additionals.order() {
            return Err(MdnsError::ErrSectionDone);
        }
        Ok(())
    }

    /// Adds one resource record to the answer, authority or additional
    /// section being built: `header` is its name, type, class and time to
    /// live in wire form, then the data length (taken modulo 2^16) and
    /// `body` follow. Where the count is already at its limit the message is
    /// dropped.
    pub fn add_resource(&mut self, header: &[u8], body: &[u8]) -> (r: Result<(), MdnsError>)
        requires
            old(self).wf(),
        ensures
            final(self).wf(),
            final(self).spec_section() == old(self).spec_section(),
            final(self).spec_compression() == old(self).spec_compression(),
            old(self).spec_section().rank() < Section::Answers.rank() ==> r == Err::<
                (),
                MdnsError,
            >(MdnsError::ErrNotStarted) && final(self).spec_msg() == old(self).spec_msg()
                && final(self).spec_header() == old(self).spec_header(),
            old(self).spec_section().rank() > Section::Additionals.rank() ==> r == Err::<
                (),
                MdnsError,
            >(MdnsError::ErrSectionDone) && final(self).spec_msg() == old(self).spec_msg()
                && final(self).spec_header() == old(self).spec_header(),
            Section::Answers.rank() <= old(self).spec_section().rank()
                <= Section::Additionals.rank() ==> match old(self).spec_msg() {
                None => r is Ok && final(self).spec_msg() is None && final(self).spec_header()
                    == old(self).spec_header(),
                Some(m) => match count_outcome(old(self).spec_section(), old(self).spec_header()) {
                    Err(e) => r == Err::<(), MdnsError>(e) && final(self).spec_msg() is None
                        && final(self).spec_header() == old(self).spec_header(),
                    Ok(()) => r is Ok && final(self).spec_msg() == Some(
                        m + header@ + be16((body@.len() % 0x10000) as u16) + body@,
                    ) && final(self).spec_header() == counted(
                        old(self).spec_section(),
                        old(self).spec_header(),
                    ),
                },
            },
    {
        match self.check_resource_section() {
            Ok(()) => {},
            Err(e) => return Err(e),
        }
        let length: u16 = (body.len() % 0x10000) as u16;
        let msg = self.msg.take();
        if let Some(mut msg) = msg {
            let ghost m0 = msg@;
            msg.extend_from_slice(header);
            push_be16(&mut msg, length);
            match self.increment_section_count() {
                Ok(()) => {},
                Err(e) => return Err(e),
            }
            msg.extend_from_slice(body);
            self.msg = Some(msg);
            assert(self.spec_msg() == Some(m0 + header@ + be16(length) + body@));
        }
        Ok(())
    }

    /// Ends building: the header, with the counts of the entries added,
    /// is written over the first twelve bytes and the message handed out.
    pub fn finish(&mut self) -> (r: Result<Vec<u8>, MdnsError>)
        requires
            old(self).wf(),
        ensures
            final(self).wf(),
            final(self).spec_header() == old(self).spec_header(),
            final(self).spec_compression() == old(self).spec_compression(),
            old(self).spec_section().rank() < Section::Header.rank() ==> r == Err::<
                Vec<u8>,
                MdnsError,
            >(MdnsError::ErrNotStarted) && final(self).spec_section() == old(self).spec_section()
                && final(self).spec_msg() == old(self).spec_msg(),
            old(self).spec_section().rank() >= Section::Header.rank() ==> final(self).spec_section()
                == Section::Done && final(self).spec_msg() is None && match old(self).spec_msg() {
                Some(m) => r matches Ok(out) && out@ == header_bytes(old(self).spec_header())
                    + m.subrange(HEADER_LEN as int, m.len() as int),
                None => r == Err::<Vec<u8>, MdnsError>(MdnsError::ErrEmptyBuilderMsg),
            },
    {
        if self.section.order() < Section::Header.order() {
            return Err(MdnsError::ErrNotStarted);
        }
        self.section = Section::Done;
        let buf = self.header.pack(Vec::new());
        assert(buf@ =~= header_bytes(self.header));
        match self.msg.take() {
            Some(mut msg) => {
                let ghost m0 = msg@;
                let mut i: usize = 0;
                while i < HEADER_LEN
                    invariant
                        i <= HEADER_LEN,
                        buf@.len() == HEADER_LEN,
                        msg@.len() == m0.len(),
                        m0.len() >= HEADER_LEN,
                        forall|k: int| 0 <= k < i ==> msg@[k] == buf@[k],
                        forall|k: int| i <= k < m0.len() ==> msg@[k] == m0[k],
                    decreases HEADER_LEN - i,
                {
                    msg.set(i, buf[i]);
                    i = i + 1;
                }
                assert(msg@ =~= header_bytes(self.header) + m0.subrange(
                    HEADER_LEN as int,
                    m0.len() as int,
                ));
                Ok(msg)
            },
            None => Err(MdnsError::ErrEmptyBuilderMsg),
        }
    }
}

impl HeaderInternal {
    /// The header with every field zero.
    pub open spec fn default_spec() -> HeaderInternal {
        HeaderInternal {
            id: 0,
            bits: 0,
            questions: 0,
            answers: 0,
            authorities: 0,
            additionals: 0,
        }
    }
}

/// What starting `target` gives while `current` is being built.
pub open spec fn start_outcome(current: Section, target: Section) -> Result<(), MdnsError> {
    if current.rank() <= Section::NotStarted.rank() {
        Err(MdnsError::ErrNotStarted)
    } else if current.rank() > target.rank() {
        Err(MdnsError::ErrSectionDone)
    } else {
        Ok(())
    }
}

/// Whether one more entry may be counted in `section`.
pub open spec fn count_outcome(section: Section, h: HeaderInternal) -> Result<(), MdnsError> {
    match section {
        Section::Questions => if h.questions == u16::MAX {
            Err(MdnsError::ErrTooManyQuestions)
        } else {
            Ok(())
        },
        Section::Answers => if h.answers == u16::MAX {
            Err(MdnsError::ErrTooManyAnswers)
        } else {
            Ok(())
        },
        Section::Authorities => if h.authorities == u16::MAX {
            Err(MdnsError::ErrTooManyAuthorities)
        } else {
            Ok(())
        },
        Section::Additionals => if h.additionals == u16::MAX {
            Err(MdnsError::ErrTooManyAdditionals)
        } else {
            Ok(())
        },
        Section::NotStarted => Err(MdnsError::ErrNotStarted),
        Section::Done => Err(MdnsError::ErrSectionDone),
        Section::Header => Err(MdnsError::ErrSectionHeader),
    }
}

/// The header with one more entry counted in `section`.
pub open spec fn counted(section: Section, h: HeaderInternal) -> HeaderInternal {
    match section {
        Section::Questions => HeaderInternal { questions: (h.questions + 1) as u16, ..h },
        Section::Answers => HeaderInternal { answers: (h.answers + 1) as u16, ..h },
        Section::Authorities => HeaderInternal { authorities: (h.authorities + 1) as u16, ..h },
        Section::Additionals => HeaderInternal { additionals: (h.additionals + 1) as u16, ..h },
        _ => h,
    }
}

/// Starting a section never moves the builder back: a section that
/// succeeds is at or after the one being built.
pub proof fn lemma_sections_advance(current: Section, target: Section)
    ensures
        start_outcome(current, target) is Ok ==> current.rank() <= target.rank() && current
            != Section::NotStarted,
{
}

} // verus!
