//! Tagged properties of exported objects, read from the `.uexp` data of a package.
//!
//! A tag is the property's name (a name reference); the tag `None` ends a list.
//! Otherwise follow the type name, the size of the value, an array index, the
//! type-specific fields (an enum name for bytes and enums, the value for booleans, the
//! inner type for arrays and sets, the struct name and a 16-byte GUID for structs, the
//! key and value types for maps), a flag and, when it is set, a 16-byte GUID. The value
//! follows the tag.
use vstd::prelude::*;

use super::bytes::{read_fstring, read_u32, read_u8, spec_fstring, spec_u32, spec_u8};
use super::pak::EngineError;
use super::uasset::{
    read_resource_index, spec_name_index, spec_resource_index, strings_view, NameIndex, Package,
    PackageSummary, ResourceIndex,
};
use crate::text::chars_eq_str;

verus! {

/// The type of a property and its type-specific fields.
#[derive(Clone, Copy, Debug, PartialEq, Eq, Structural)]
pub enum PropertyType {
    Byte { enum_name: NameIndex },
    Enum { enum_name: NameIndex },
    Bool(bool),
    Array { inner_type: NameIndex },
    Struct { struct_name: NameIndex },
    SetOf { inner_type: NameIndex },
    MapOf { inner_type: NameIndex, value_type: NameIndex },
    Other(NameIndex),
}

/// A property tag: the property's name, its type, where its value ends and its array index.
#[derive(Clone, Copy, Debug, PartialEq, Eq, Structural)]
pub struct PropertyTag {
    pub name: NameIndex,
    pub type_info: PropertyType,
    pub skip_offset: u64,
    pub array_idx: u32,
}

/// Reads a name reference that must designate a name of `names`.
pub open spec fn spec_name(names: Seq<Seq<char>>, d: Seq<u8>, p: int) -> Result<(NameIndex, int), EngineError> {
    match spec_name_index(d, p) {
        None => Err(EngineError::UnexpectedEof),
        Some((n, q)) => if n.index < names.len() {
            Ok((n, q))
        } else {
            Err(EngineError::Malformed)
        },
    }
}

/// A seek forward by `n` bytes from `p`.
pub open spec fn spec_seek(p: int, n: int) -> Result<int, EngineError> {
    if p + n <= u64::MAX {
        Ok(p + n)
    } else {
        Err(EngineError::OutOfRange)
    }
}

/// Reads the type-specific fields of a property of type `t` at `p`.
pub open spec fn spec_type_info(
    names: Seq<Seq<char>>,
    d: Seq<u8>,
    t: NameIndex,
    p: int,
) -> Result<(PropertyType, int), EngineError> {
    let text = names[t.index as int];
    if text == "ByteProperty"@ {
        match spec_name(names, d, p) {
            Err(e) => Err(e),
            Ok((n, q)) => Ok((PropertyType::Byte { enum_name: n }, q)),
        }
    } else if text == "EnumProperty"@ {
        match spec_name(names, d, p) {
            Err(e) => Err(e),
            Ok((n, q)) => Ok((PropertyType::Enum { enum_name: n }, q)),
        }
    } else if text == "BoolProperty"@ {
        match spec_u8(d, p) {
            None => Err(EngineError::UnexpectedEof),
            Some((b, q)) => Ok((PropertyType::Bool(b != 0), q)),
        }
    } else if text == "ArrayProperty"@ {
        match spec_name(names, d, p) {
            Err(e) => Err(e),
            Ok((n, q)) => Ok((PropertyType::Array { inner_type: n }, q)),
        }
    } else if text == "StructProperty"@ {
        match spec_name(names, d, p) {
            Err(e) => Err(e),
            Ok((n, q)) => match spec_seek(q, 16) {
                Err(e) => Err(e),
                Ok(q2) => Ok((PropertyType::Struct { struct_name: n }, q2)),
            },
        }
    } else if text == "SetProperty"@ {
        match spec_name(names, d, p) {
            Err(e) => Err(e),
            Ok((n, q)) => Ok((PropertyType::SetOf { inner_type: n }, q)),
        }
    } else if text == "MapProperty"@ {
        match spec_name(names, d, p) {
            Err(e) => Err(e),
            Ok((n, q)) => match spec_name(names, d, q) {
                Err(e) => Err(e),
                Ok((v, q2)) => Ok((PropertyType::MapOf { inner_type: n, value_type: v }, q2)),
            },
        }
    } else {
        Ok((PropertyType::Other(t), p))
    }
}

/// Reads a property tag at `p`: `None` for the tag that ends a list, otherwise the tag;
/// and where the tag ends (where the value starts).
pub open spec fn spec_property_tag(names: Seq<Seq<char>>, d: Seq<u8>, p: int) -> Result<
    (Option<PropertyTag>, int),
    EngineError,
> {
    match spec_name(names, d, p) {
        Err(e) => Err(e),
        Ok((name, q1)) => if names[name.index as int] == "None"@ {
            Ok((None, q1))
        } else {
            match spec_name(names, d, q1) {
                Err(e) => Err(e),
                Ok((ty_name, q2)) => match spec_u32(d, q2) {
                    None => Err(EngineError::UnexpectedEof),
                    Some((size, q3)) => match spec_u32(d, q3) {
                        None => Err(EngineError::UnexpectedEof),
                        Some((array_idx, q4)) => match spec_type_info(names, d, ty_name, q4) {
                            Err(e) => Err(e),
                            Ok((type_info, q5)) => match spec_u8(d, q5) {
                                None => Err(EngineError::UnexpectedEof),
                                Some((has_guid, q6)) => match (if has_guid != 0 {
                                    spec_seek(q6, 16)
                                } else {
                                    Ok(q6)
                                }) {
                                    Err(e) => Err(e),
                                    Ok(q7) => if q7 + size <= u64::MAX {
                                        Ok(
                                            (
                                                Some(
                                                    PropertyTag {
                                                        name,
                                                        type_info,
                                                        skip_offset: (q7 + size) as u64,
                                                        array_idx,
                                                    },
                                                ),
                                                q7,
                                            ),
                                        )
                                    } else {
                                        Err(EngineError::OutOfRange)
                                    },
                                },
                            },
                        },
                    },
                },
            }
        },
    }
}

/// A tag list ends with a tag named `None`, of which only the name (8 bytes) is read;
/// any other name starts a full tag.
pub proof fn lemma_none_tag(names: Seq<Seq<char>>, d: Seq<u8>, p: int)
    ensures
        spec_property_tag(names, d, p) matches Ok((None, q)) <==> (spec_name(names, d, p) matches Ok((n, q1))
            && names[n.index as int] == "None"@),
        spec_property_tag(names, d, p) matches Ok((None, q)) ==> q == p + 8,
{
}

/// A tag's value follows its header and is as long as the tag's size field says: so
/// skipping the property (to the tag's skip offset) leaves a reader at the next tag.
pub proof fn lemma_skip_after_tag(names: Seq<Seq<char>>, d: Seq<u8>, p: int)
    ensures
        spec_property_tag(names, d, p) matches Ok((Some(t), q)) ==> (spec_name(names, d, p) matches Ok((_n, q1))
            && spec_name(names, d, q1) matches Ok((_ty, q2)) && spec_u32(d, q2) matches Some((size, _q3))
            && t.skip_offset == q + size),
{
}

/// The bytes that an export's reader reads: the `size` bytes of the `.uexp` data
/// `uexp` that start `offset - header_size` (wrapping around at 32 bits) bytes in,
/// as far as the data goes.
pub open spec fn spec_window(uexp: Seq<u8>, offset: u32, header_size: u32, size: u32) -> Seq<u8> {
    let start = if offset >= header_size {
        offset - header_size
    } else {
        offset - header_size + 0x1_0000_0000
    };
    let s = if start <= uexp.len() {
        start
    } else {
        uexp.len() as int
    };
    let e = if start + size <= uexp.len() {
        start + size
    } else {
        uexp.len() as int
    };
    uexp.subrange(s, e)
}

/// Reads the value and tags of one exported object.
pub struct ExportReader {
    data: Vec<u8>,
    pos: u64,
}

impl ExportReader {
    /// The bytes of the export.
    pub closed spec fn data(&self) -> Seq<u8> {
        self.data@
    }

    /// The current position, counted from the start of the export.
    pub closed spec fn pos(&self) -> int {
        self.pos as int
    }

    /// The number of bytes of the export.
    pub fn len(&self) -> (r: usize)
        ensures
            r == self.data().len(),
    {
        self.data.len()
    }

    /// The current position.
    pub fn position(&self) -> (r: u64)
        ensures
            r == self.pos(),
    {
        self.pos
    }

    fn at(&self) -> (r: Option<usize>)
        ensures
            r matches Some(p) ==> p == self.pos(),
            r is None ==> self.pos() > self.data().len(),
    {
        if self.pos <= self.data.len() as u64 {
            Some(self.pos as usize)
        } else {
            None
        }
    }

    /// Moves forward by `n` bytes.
    pub fn seek_forward(&mut self, n: u64) -> (r: Result<(), EngineError>)
        ensures
            final(self).data() == old(self).data(),
            r is Ok ==> spec_seek(old(self).pos(), n as int) == Ok::<int, EngineError>(
                final(self).pos(),
            ),
            r matches Err(e) ==> spec_seek(old(self).pos(), n as int) == Err::<int, EngineError>(e),
    {
        if self.pos <= u64::MAX - n {
            self.pos = self.pos + n;
            Ok(())
        } else {
            Err(EngineError::OutOfRange)
        }
    }

    /// Moves to position `p`.
    pub fn seek_to(&mut self, p: u64)
        ensures
            final(self).data() == old(self).data(),
            final(self).pos() == p,
    {
        self.pos = p;
    }

    /// Reads a little-endian `u32`.
    pub fn read_u32(&mut self) -> (r: Result<u32, EngineError>)
        ensures
            final(self).data() == old(self).data(),
            r matches Ok(v) ==> spec_u32(old(self).data(), old(self).pos()) == Some(
                (v, final(self).pos()),
            ),
            r is Err ==> spec_u32(old(self).data(), old(self).pos()) is None && r
                == Err::<u32, EngineError>(EngineError::UnexpectedEof),
    {
        let p = match self.at() {
            Some(p) => p,
            None => return Err(EngineError::UnexpectedEof),
        };
        match read_u32(self.data.as_slice(), p) {
            Some((v, q)) => {
                self.pos = q as u64;
                Ok(v)
            },
            None => Err(EngineError::UnexpectedEof),
        }
    }

    /// Reads a byte.
    pub fn read_u8(&mut self) -> (r: Result<u8, EngineError>)
        ensures
            final(self).data() == old(self).data(),
            r matches Ok(v) ==> spec_u8(old(self).data(), old(self).pos()) == Some(
                (v, final(self).pos()),
            ),
            r is Err ==> spec_u8(old(self).data(), old(self).pos()) is None && r == Err::<
                u8,
                EngineError,
            >(EngineError::UnexpectedEof),
    {
        let p = match self.at() {
            Some(p) => p,
            None => return Err(EngineError::UnexpectedEof),
        };
        match read_u8(self.data.as_slice(), p) {
            Some((v, q)) => {
                self.pos = q as u64;
                Ok(v)
            },
            None => Err(EngineError::UnexpectedEof),
        }
    }

    /// Reads a resource reference.
    pub fn read_resource_index(&mut self) -> (r: Result<ResourceIndex, EngineError>)
        ensures
            final(self).data() == old(self).data(),
            r matches Ok(v) ==> spec_resource_index(old(self).data(), old(self).pos()) == Some(
                (v, final(self).pos()),
            ),
            r is Err ==> spec_resource_index(old(self).data(), old(self).pos()) is None && r
                == Err::<ResourceIndex, EngineError>(EngineError::UnexpectedEof),
    {
        let p = match self.at() {
            Some(p) => p,
            None => return Err(EngineError::UnexpectedEof),
        };
        match read_resource_index(self.data.as_slice(), p) {
            Some((v, q)) => {
                self.pos = q as u64;
                Ok(v)
            },
            None => Err(EngineError::UnexpectedEof),
        }
    }

    /// Reads an engine string.
    pub fn read_fstring(&mut self) -> (r: Result<Vec<char>, EngineError>)
        ensures
            final(self).data() == old(self).data(),
            r matches Ok(v) ==> spec_fstring(old(self).data(), old(self).pos()) == Some(
                (v@, final(self).pos()),
            ),
            r is Err ==> spec_fstring(old(self).data(), old(self).pos()) is None && r == Err::<
                Vec<char>,
                EngineError,
            >(EngineError::UnexpectedEof),
    {
        let p = match self.at() {
            Some(p) => p,
            None => return Err(EngineError::UnexpectedEof),
        };
        match read_fstring(self.data.as_slice(), p) {
            Some((v, q)) => {
                self.pos = q as u64;
                Ok(v)
            },
            None => Err(EngineError::UnexpectedEof),
        }
    }

    /// Reads a name reference that must designate a name of `pkg`.
    pub fn read_name(&mut self, pkg: &PackageSummary) -> (r: Result<NameIndex, EngineError>)
        ensures
            final(self).data() == old(self).data(),
            r matches Ok(v) ==> spec_name(strings_view(pkg.names@), old(self).data(), old(self).pos())
                == Ok::<(NameIndex, int), EngineError>((v, final(self).pos())),
            r matches Err(e) ==> spec_name(strings_view(pkg.names@), old(self).data(), old(self).pos())
                == Err::<(NameIndex, int), EngineError>(e),
    {
        let index = self.read_u32()?;
        let inst = self.read_u32()?;
        let instance = if inst > 0 {
            Some(inst - 1)
        } else {
            None
        };
        if (index as usize) < pkg.names.len() {
            Ok(NameIndex { index: index as usize, instance })
        } else {
            Err(EngineError::Malformed)
        }
    }

    fn read_type_info(&mut self, pkg: &PackageSummary, t: NameIndex) -> (r: Result<PropertyType, EngineError>)
        requires
            t.index < pkg.names@.len(),
        ensures
            final(self).data() == old(self).data(),
            r matches Ok(v) ==> spec_type_info(strings_view(pkg.names@), old(self).data(), t, old(self).pos())
                == Ok::<(PropertyType, int), EngineError>((v, final(self).pos())),
            r matches Err(e) ==> spec_type_info(strings_view(pkg.names@), old(self).data(), t, old(self).pos())
                == Err::<(PropertyType, int), EngineError>(e),
    {
        let text = crate::text::chars_of(pkg.names[t.index].as_str());
        let text = text.as_slice();
        assert(strings_view(pkg.names@)[t.index as int] == pkg.names@[t.index as int]@);
        if chars_eq_str(text, "ByteProperty") {
            Ok(PropertyType::Byte { enum_name: self.read_name(pkg)? })
        } else if chars_eq_str(text, "EnumProperty") {
            Ok(PropertyType::Enum { enum_name: self.read_name(pkg)? })
        } else if chars_eq_str(text, "BoolProperty") {
            Ok(PropertyType::Bool(self.read_u8()? != 0))
        } else if chars_eq_str(text, "ArrayProperty") {
            Ok(PropertyType::Array { inner_type: self.read_name(pkg)? })
        } else if chars_eq_str(text, "StructProperty") {
            let struct_name = self.read_name(pkg)?;
            self.seek_forward(16)?;
            Ok(PropertyType::Struct { struct_name })
        } else if chars_eq_str(text, "SetProperty") {
            Ok(PropertyType::SetOf { inner_type: self.read_name(pkg)? })
        } else if chars_eq_str(text, "MapProperty") {
            let inner_type = self.read_name(pkg)?;
            let value_type = self.read_name(pkg)?;
            Ok(PropertyType::MapOf { inner_type, value_type })
        } else {
            Ok(PropertyType::Other(t))
        }
    }

    /// Reads the next property tag; `None` at the tag that ends the list.
    pub fn read_property_tag(&mut self, pkg: &PackageSummary) -> (r: Result<Option<PropertyTag>, EngineError>)
        ensures
            final(self).data() == old(self).data(),
            r matches Ok(t) ==> spec_property_tag(strings_view(pkg.names@), old(self).data(), old(self).pos())
                == Ok::<(Option<PropertyTag>, int), EngineError>((t, final(self).pos())),
            r matches Err(e) ==> spec_property_tag(strings_view(pkg.names@), old(self).data(), old(self).pos())
                == Err::<(Option<PropertyTag>, int), EngineError>(e),
    {
        let name = self.read_name(pkg)?;
        let text = crate::text::chars_of(pkg.names[name.index].as_str());
        assert(strings_view(pkg.names@)[name.index as int] == pkg.names@[name.index as int]@);
        if chars_eq_str(text.as_slice(), "None") {
            return Ok(None);
        }
        let ty_name = self.read_name(pkg)?;
        let size = self.read_u32()?;
        let array_idx = self.read_u32()?;
        let type_info = self.read_type_info(pkg, ty_name)?;
        let has_guid = self.read_u8()?;
        if has_guid != 0 {
            self.seek_forward(16)?;
        }
        if self.pos > u64::MAX - size as u64 {
            return Err(EngineError::OutOfRange);
        }
        let skip_offset = self.pos + size as u64;
        Ok(Some(PropertyTag { name, type_info, skip_offset, array_idx }))
    }

    /// Moves past the value of the property of `tag`.
    pub fn skip_property(&mut self, tag: &PropertyTag)
        ensures
            final(self).data() == old(self).data(),
            final(self).pos() == tag.skip_offset,
    {
        self.pos = tag.skip_offset;
    }
}

impl Package {
    /// A reader for export `idx`, given the data of the package's `.uexp` entry.
    pub fn open_export(&self, idx: usize, uexp: &[u8]) -> (r: ExportReader)
        requires
            idx < self.summary.exports@.len(),
        ensures
            r.pos() == 0,
            r.data() == spec_window(
                uexp@,
                self.summary.exports@[idx as int].offset,
                self.summary.header_size,
                self.summary.exports@[idx as int].size,
            ),
    {
        let export = self.summary.exports[idx];
        let hs = self.summary.header_size;
        let start: u64 = if export.offset >= hs {
            (export.offset - hs) as u64
        } else {
            (export.offset as u64 + 0x1_0000_0000u64) - hs as u64
        };
        let len = uexp.len() as u64;
        let s = if start <= len {
            start
        } else {
            len
        };
        let e = if start + export.size as u64 <= len {
            start + export.size as u64
        } else {
            len
        };
        let mut data: Vec<u8> = Vec::new();
        data.extend_from_slice(&uexp[s as usize..e as usize]);
        assert(data@ =~= uexp@.subrange(s as int, e as int));
        ExportReader { data, pos: 0 }
    }
}

} // verus!
