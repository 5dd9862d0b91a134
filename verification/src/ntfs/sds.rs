//! The security descriptor stream: tightly packed entries, each a header of
//! twenty bytes and a payload.

use crate::ntfs::reader::{le_u32, read_u32};
use crate::ntfs::types::{
    ParseError,
    ParseErrorView,
    ParseResult,
    SecurityDescriptor,
    SecurityDescriptorView,
    Step,
};
use vstd::prelude::*;
use vstd::slice::{slice_subrange, slice_to_vec};

verus! {

/// The number of bytes of an entry's header.
pub const SDS_HEADER_SIZE: usize = 20;

/// The largest payload that is taken for a descriptor.
pub const SDS_MAX_LENGTH: u32 = 0x1_0000;

/// What stands at `pos` in the stream `data`: an entry; the end, where no
/// header fits or the length field is zero or above the bound; or a failure,
/// where the payload runs past the end of `data`.
pub open spec fn sds_step(data: Seq<u8>, pos: int) -> Step<SecurityDescriptorView> {
    if pos + SDS_HEADER_SIZE > data.len() {
        Step::End
    } else {
        let length = le_u32(data, pos + 16);
        if length == 0 || length > SDS_MAX_LENGTH {
            Step::End
        } else if pos + SDS_HEADER_SIZE + length > data.len() {
            Step::Failed(
                ParseErrorView {
                    message: "Failed to read security descriptor data"@,
                    offset: Some(pos as u64),
                },
            )
        } else {
            Step::Record(
                SecurityDescriptorView {
                    id: le_u32(data, pos + 4) as u32,
                    hash: le_u32(data, pos) as u32,
                    offset: pos as u64,
                    length: length as u32,
                    descriptor: data.subrange(
                        pos + SDS_HEADER_SIZE,
                        pos + SDS_HEADER_SIZE + length,
                    ),
                },
                pos + SDS_HEADER_SIZE + length,
            )
        }
    }
}

/// The entries of `data` from `pos` on, in stream order.
pub open spec fn sds_entries_from(data: Seq<u8>, pos: int) -> Seq<SecurityDescriptorView>
    decreases data.len() - pos,
{
    if pos < 0 || pos >= data.len() {
        Seq::empty()
    } else {
        match sds_step(data, pos) {
            Step::Record(entry, next) => seq![entry] + sds_entries_from(data, next),
            _ => Seq::empty(),
        }
    }
}

/// The entries of the stream `data`.
pub open spec fn sds_entries(data: Seq<u8>) -> Seq<SecurityDescriptorView> {
    sds_entries_from(data, 0)
}

/// The views of a run of descriptors.
pub open spec fn descriptor_views(s: Seq<SecurityDescriptor>) -> Seq<SecurityDescriptorView> {
    s.map_values(|d: SecurityDescriptor| d@)
}

/// The first entry of `s` with the given id.
pub open spec fn first_with_id(s: Seq<SecurityDescriptorView>, id: u32) -> Option<
    SecurityDescriptorView,
>
    decreases s.len(),
{
    if s.len() == 0 {
        None
    } else if s[0].id == id {
        Some(s[0])
    } else {
        first_with_id(s.skip(1), id)
    }
}

/// The decoder of a security descriptor stream.
pub struct SdsParser {
    data: Vec<u8>,
    descriptors: Vec<SecurityDescriptor>,
}

impl SdsParser {
    /// The bytes that the decoder was made for.
    pub closed spec fn data(&self) -> Seq<u8> {
        self.data@
    }

    /// The entries decoded so far.
    pub closed spec fn descriptors(&self) -> Seq<SecurityDescriptorView> {
        descriptor_views(self.descriptors@)
    }

    /// A decoder for `data` that has decoded nothing yet.
    pub fn new(data: Vec<u8>) -> (r: SdsParser)
        ensures
            r.data() == data@,
            r.descriptors() == Seq::<SecurityDescriptorView>::empty(),
    {
        let r = SdsParser { data, descriptors: Vec::new() };
        assert(r.descriptors() =~= Seq::<SecurityDescriptorView>::empty());
        r
    }

    /// Decodes the stream and appends its entries, in stream order. The
    /// stream ends at the first position that holds no entry; that is no
    /// error.
    pub fn parse(&mut self) -> (r: ParseResult<()>)
        ensures
            r is Ok,
            final(self).data() == old(self).data(),
            final(self).descriptors() == old(self).descriptors() + sds_entries(old(self).data()),
    {
        let n: usize = self.data.len();
        let mut pos: usize = 0;
        let mut more: bool = true;
        proof {
            assert(self.descriptors() + Seq::<SecurityDescriptorView>::empty()
                =~= self.descriptors());
        }
        while more && pos < n
            invariant
                n == self.data@.len(),
                self.data@ == old(self).data@,
                pos <= n || !more,
                old(self).descriptors() + sds_entries(self.data@) == self.descriptors() + (if more {
                    sds_entries_from(self.data@, pos as int)
                } else {
                    Seq::empty()
                }),
            decreases (if more { 1int } else { 0int }), n - pos,
        {
            match self.parse_descriptor(pos) {
                Ok(Some(descriptor)) => {
                    proof {
                        let rest = sds_entries_from(
                            self.data@,
                            pos + SDS_HEADER_SIZE + descriptor.length,
                        );
                        assert(descriptor_views(self.descriptors@.push(descriptor)) + rest
                            =~= descriptor_views(self.descriptors@) + (seq![descriptor@] + rest));
                    }
                    pos = pos + SDS_HEADER_SIZE + descriptor.length as usize;
                    self.descriptors.push(descriptor);
                },
                Ok(None) => {
                    more = false;
                },
                Err(_) => {
                    more = false;
                },
            }
        }
        proof {
            assert(self.descriptors() + Seq::<SecurityDescriptorView>::empty()
                =~= self.descriptors());
        }
        Ok(())
    }

    /// Decodes what stands at `pos`: an entry, the end of the stream, or the
    /// error for a payload that runs past the end of the buffer.
    pub fn parse_descriptor(&self, pos: usize) -> (r: ParseResult<Option<SecurityDescriptor>>)
        ensures
            match r {
                Ok(Some(d)) => sds_step(self.data(), pos as int) == Step::Record(
                    d@,
                    pos + SDS_HEADER_SIZE + d.length,
                ),
                Ok(None) => sds_step(self.data(), pos as int) == Step::<
                    SecurityDescriptorView,
                >::End,
                Err(e) => sds_step(self.data(), pos as int) == Step::<
                    SecurityDescriptorView,
                >::Failed(e@),
            },
    {
        let data: &[u8] = self.data.as_slice();
        let n: usize = data.len();
        if pos > n || n - pos < SDS_HEADER_SIZE {
            return Ok(None);
        }
        let hash: u32 = read_u32(data, pos);
        let id: u32 = read_u32(data, pos + 4);
        let length: u32 = read_u32(data, pos + 16);
        if length == 0 || length > SDS_MAX_LENGTH {
            return Ok(None);
        }
        if n - pos - SDS_HEADER_SIZE < length as usize {
            return Err(
                ParseError::new("Failed to read security descriptor data", Some(pos as u64)),
            );
        }
        let start: usize = pos + SDS_HEADER_SIZE;
        let descriptor: Vec<u8> = slice_to_vec(
            slice_subrange(data, start, start + length as usize),
        );
        Ok(Some(SecurityDescriptor { id, hash, offset: pos as u64, length, descriptor }))
    }

    /// The entries decoded so far, in stream order.
    pub fn get_descriptors(&self) -> (r: &[SecurityDescriptor])
        ensures
            descriptor_views(r@) == self.descriptors(),
    {
        self.descriptors.as_slice()
    }

    /// The first decoded entry with the given id, if there is one.
    pub fn find_by_id(&self, id: u32) -> (r: Option<&SecurityDescriptor>)
        ensures
            match r {
                Some(d) => first_with_id(self.descriptors(), id) == Some(d@),
                None => first_with_id(self.descriptors(), id) is None,
            },
    {
        let mut i: usize = 0;
        proof {
            assert(self.descriptors().skip(0) =~= self.descriptors());
        }
        while i < self.descriptors.len()
            invariant
                i <= self.descriptors@.len(),
                first_with_id(self.descriptors(), id) == first_with_id(
                    self.descriptors().skip(i as int),
                    id,
                ),
            decreases self.descriptors@.len() - i,
        {
            if self.descriptors[i].id == id {
                return Some(&self.descriptors[i]);
            }
            proof {
                assert(self.descriptors().skip(i as int).skip(1) =~= self.descriptors().skip(
                    i + 1,
                ));
            }
            i = i + 1;
        }
        None
    }
}

} // verus!
