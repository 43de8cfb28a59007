//! Package summaries of `.uasset` files (file version -7) and their name, import and
//! export tables.
//!
//! A summary starts with the magic `0x9E2A83C1`, the version -7, three more version
//! numbers, a count of custom versions (20 bytes each) and the header size. The rest
//! of the header holds the folder name, the package flags, the name count and offset,
//! two fields that are skipped, the export count and offset and the import count and
//! offset. A name is an engine string and a 32-bit hash; an import is 28 bytes; an
//! export is 96 bytes. Offsets count from the start of the file; everything is read
//! from within the header.
use vstd::prelude::*;

use super::bytes::{
    read_fstring, read_i32, read_u32, skip, skip_fstring, spec_fstring, spec_i32,
    spec_skip_fstring, spec_u32,
};
use super::pak::EngineError;
use crate::text::string_of;

verus! {

/// A reference into a package's name table, with an optional instance number.
#[derive(Debug, PartialEq, Eq, Clone, Copy, Structural)]
pub struct NameIndex {
    pub index: usize,
    pub instance: Option<u32>,
}

/// A reference to nothing, an import or an export of a package.
#[derive(Debug, PartialEq, Eq, Clone, Copy, Structural)]
pub enum ResourceIndex {
    Null,
    Import(usize),
    Export(usize),
}

/// An object that a package uses from another package.
#[derive(Debug, PartialEq, Eq, Clone, Copy, Structural)]
pub struct Import {
    pub package: NameIndex,
    pub class: NameIndex,
    pub outer: ResourceIndex,
    pub name: NameIndex,
}

/// An object that a package defines.
#[derive(Debug, PartialEq, Eq, Clone, Copy, Structural)]
pub struct Export {
    pub class: ResourceIndex,
    pub super_struct: ResourceIndex,
    pub template: ResourceIndex,
    pub outer: ResourceIndex,
    pub name: NameIndex,
    pub flags: u32,
    pub size: u32,
    pub offset: u32,
}

/// Reads a name reference: a 32-bit index and a 32-bit instance number, where 0 means
/// no instance and `n` means instance `n - 1`.
pub open spec fn spec_name_index(d: Seq<u8>, p: int) -> Option<(NameIndex, int)> {
    match spec_u32(d, p) {
        None => None,
        Some((index, q)) => match spec_u32(d, q) {
            None => None,
            Some((inst, q2)) => Some(
                (
                    NameIndex {
                        index: index as usize,
                        instance: if inst > 0 {
                            Some((inst - 1) as u32)
                        } else {
                            None
                        },
                    },
                    q2,
                ),
            ),
        },
    }
}

/// The resource that a signed 32-bit reference designates: 0 is none, `n > 0` is
/// export `n - 1` and `n < 0` is import `-n - 1`.
pub open spec fn resource_of(i: i32) -> ResourceIndex {
    if i == 0 {
        ResourceIndex::Null
    } else if i > 0 {
        ResourceIndex::Export((i - 1) as usize)
    } else {
        ResourceIndex::Import((-(i as int) - 1) as usize)
    }
}

/// Reads a resource reference.
pub open spec fn spec_resource_index(d: Seq<u8>, p: int) -> Option<(ResourceIndex, int)> {
    match spec_i32(d, p) {
        None => None,
        Some((i, q)) => Some((resource_of(i), q)),
    }
}

/// Reads an import.
pub open spec fn spec_import(d: Seq<u8>, p: int) -> Option<(Import, int)> {
    match spec_name_index(d, p) {
        None => None,
        Some((package, q1)) => match spec_name_index(d, q1) {
            None => None,
            Some((class, q2)) => match spec_resource_index(d, q2) {
                None => None,
                Some((outer, q3)) => match spec_name_index(d, q3) {
                    None => None,
                    Some((name, q4)) => Some((Import { package, class, outer, name }, q4)),
                },
            },
        },
    }
}

/// Reads an export (60 trailing bytes are skipped).
pub open spec fn spec_export(d: Seq<u8>, p: int) -> Option<(Export, int)> {
    match spec_resource_index(d, p) {
        None => None,
        Some((class, q1)) => match spec_resource_index(d, q1) {
            None => None,
            Some((super_struct, q2)) => match spec_resource_index(d, q2) {
                None => None,
                Some((template, q3)) => match spec_resource_index(d, q3) {
                    None => None,
                    Some((outer, q4)) => match spec_name_index(d, q4) {
                        None => None,
                        Some((name, q5)) => match spec_u32(d, q5) {
                            None => None,
                            Some((flags, q6)) => match spec_u32(d, q6) {
                                None => None,
                                Some((size, q7)) => match spec_u32(d, q7) {
                                    None => None,
                                    Some((offset, q8)) => Some(
                                        (
                                            Export {
                                                class,
                                                super_struct,
                                                template,
                                                outer,
                                                name,
                                                flags,
                                                size,
                                                offset,
                                            },
                                            q8 + 60,
                                        ),
                                    ),
                                },
                            },
                        },
                    },
                },
            },
        },
    }
}

/// Reads a name-table entry: an engine string and a 32-bit hash.
pub open spec fn spec_name_entry(d: Seq<u8>, p: int) -> Option<(Seq<char>, int)> {
    match spec_fstring(d, p) {
        None => None,
        Some((s, q)) => match spec_u32(d, q) {
            None => None,
            Some((_, q2)) => Some((s, q2)),
        },
    }
}

/// Reads `n` name-table entries at `p`.
pub open spec fn spec_names(d: Seq<u8>, p: int, n: nat) -> Option<Seq<Seq<char>>>
    decreases n,
{
    if n == 0 {
        Some(seq![])
    } else {
        match spec_names_at(d, p, (n - 1) as nat) {
            None => None,
            Some((v, q)) => match spec_name_entry(d, q) {
                None => None,
                Some((s, _)) => Some(v.push(s)),
            },
        }
    }
}

/// Reads `n` name-table entries at `p` and says where they end.
pub open spec fn spec_names_at(d: Seq<u8>, p: int, n: nat) -> Option<(Seq<Seq<char>>, int)>
    decreases n,
{
    if n == 0 {
        Some((seq![], p))
    } else {
        match spec_names_at(d, p, (n - 1) as nat) {
            None => None,
            Some((v, q)) => match spec_name_entry(d, q) {
                None => None,
                Some((s, q2)) => Some((v.push(s), q2)),
            },
        }
    }
}

/// Reads `n` imports at `p`.
pub open spec fn spec_imports(d: Seq<u8>, p: int, n: nat) -> Option<Seq<Import>>
    decreases n,
{
    if n == 0 {
        Some(seq![])
    } else {
        match spec_imports(d, p, (n - 1) as nat) {
            None => None,
            Some(v) => match spec_import(d, p + 28 * (n - 1)) {
                None => None,
                Some((x, _)) => Some(v.push(x)),
            },
        }
    }
}

/// Reads `n` exports at `p`.
pub open spec fn spec_exports(d: Seq<u8>, p: int, n: nat) -> Option<Seq<Export>>
    decreases n,
{
    if n == 0 {
        Some(seq![])
    } else {
        match spec_exports(d, p, (n - 1) as nat) {
            None => None,
            Some(v) => match spec_export(d, p + 96 * (n - 1)) {
                None => None,
                Some((x, _)) => Some(v.push(x)),
            },
        }
    }
}

/// A package summary as plain values: header size, names, imports, exports.
pub type SummaryView = (u32, Seq<Seq<char>>, Seq<Import>, Seq<Export>);

/// The tables of a header, read from `w`, the bytes of the header after its first
/// `hbr` bytes (positions in `w` are file positions minus `hbr`).
pub open spec fn spec_tables(w: Seq<u8>, hbr: int, header_size: u32) -> Result<SummaryView, EngineError> {
    match spec_skip_fstring(w, 0) {
        None => Err(EngineError::UnexpectedEof),
        Some(r0) => {
            let r1 = r0 + 4;
            match spec_u32(w, r1) {
                None => Err(EngineError::UnexpectedEof),
                Some((name_count, r2)) => match spec_u32(w, r2) {
                    None => Err(EngineError::UnexpectedEof),
                    Some((name_offset, r3)) => {
                        let r4 = r3 + 8;
                        match spec_u32(w, r4) {
                            None => Err(EngineError::UnexpectedEof),
                            Some((export_count, r5)) => match spec_u32(w, r5) {
                                None => Err(EngineError::UnexpectedEof),
                                Some((export_offset, r6)) => match spec_u32(w, r6) {
                                    None => Err(EngineError::UnexpectedEof),
                                    Some((import_count, r7)) => match spec_u32(w, r7) {
                                        None => Err(EngineError::UnexpectedEof),
                                        Some((import_offset, _)) => match spec_names(
                                            w,
                                            name_offset - hbr,
                                            name_count as nat,
                                        ) {
                                            None => Err(EngineError::UnexpectedEof),
                                            Some(names) => match spec_imports(
                                                w,
                                                import_offset - hbr,
                                                import_count as nat,
                                            ) {
                                                None => Err(EngineError::UnexpectedEof),
                                                Some(imports) => match spec_exports(
                                                    w,
                                                    export_offset - hbr,
                                                    export_count as nat,
                                                ) {
                                                    None => Err(EngineError::UnexpectedEof),
                                                    Some(exports) => Ok(
                                                        (header_size, names, imports, exports),
                                                    ),
                                                },
                                            },
                                        },
                                    },
                                },
                            },
                        }
                    },
                },
            }
        },
    }
}

/// The summary of a `.uasset` file `d`, or the error.
pub open spec fn spec_summary(d: Seq<u8>) -> Result<SummaryView, EngineError> {
    match spec_u32(d, 0) {
        None => Err(EngineError::UnexpectedEof),
        Some((magic, p1)) => if magic != 0x9e2a83c1 {
            Err(EngineError::NotUasset)
        } else {
            match spec_i32(d, p1) {
                None => Err(EngineError::UnexpectedEof),
                Some((version, p2)) => if version != -7 {
                    Err(EngineError::UnsupportedUassetVersion(version))
                } else {
                    match spec_i32(d, p2 + 12) {
                        None => Err(EngineError::UnexpectedEof),
                        Some((custom, p3)) => {
                            let p4 = if custom > 0 {
                                p3 + 20 * (custom as int)
                            } else {
                                p3
                            };
                            match spec_u32(d, p4) {
                                None => Err(EngineError::UnexpectedEof),
                                Some((header_size, hbr)) => if header_size < hbr {
                                    Err(EngineError::Malformed)
                                } else if header_size > d.len() {
                                    Err(EngineError::UnexpectedEof)
                                } else {
                                    spec_tables(d.subrange(hbr, header_size as int), hbr, header_size)
                                },
                            }
                        },
                    }
                },
            }
        },
    }
}

/// The tables of a package.
pub struct PackageSummary {
    pub header_size: u32,
    pub names: Vec<String>,
    pub imports: Vec<Import>,
    pub exports: Vec<Export>,
}

/// The views of strings.
pub open spec fn strings_view(v: Seq<String>) -> Seq<Seq<char>> {
    v.map_values(|s: String| s@)
}

impl PackageSummary {
    /// The summary as plain values.
    pub open spec fn view(&self) -> SummaryView {
        (self.header_size, strings_view(self.names@), self.imports@, self.exports@)
    }

    /// The text of a name of the table.
    pub open spec fn name_text(&self, i: int) -> Seq<char> {
        self.names@[i]@
    }

    /// A reference to a name of this package.
    pub fn name_ref<'p>(&'p self, idx: NameIndex) -> (r: NameRef<'p>)
        requires
            idx.index < self.names@.len(),
        ensures
            r.pkg == self,
            r.idx == idx,
    {
        NameRef { pkg: self, idx }
    }

    /// A reference to the import at `idx`.
    pub fn import_ref<'p>(&'p self, idx: usize) -> (r: ImportRef<'p>)
        requires
            idx < self.imports@.len(),
        ensures
            r.pkg == self,
            r.idx == idx,
    {
        ImportRef { pkg: self, idx }
    }

    /// References to all imports, in order.
    pub fn iter_imports<'p>(&'p self) -> (r: Vec<ImportRef<'p>>)
        ensures
            r@.len() == self.imports@.len(),
            forall|i: int| 0 <= i < r@.len() ==> (#[trigger] r@[i]).pkg == self && r@[i].idx == i,
    {
        let mut r: Vec<ImportRef<'p>> = Vec::new();
        let mut i: usize = 0;
        while i < self.imports.len()
            invariant
                i <= self.imports@.len(),
                r@.len() == i,
                forall|j: int| 0 <= j < i ==> (#[trigger] r@[j]).pkg == self && r@[j].idx == j,
            decreases self.imports.len() - i,
        {
            r.push(ImportRef { pkg: self, idx: i });
            i += 1;
        }
        r
    }

    /// A reference to the export at `idx`.
    pub fn export_ref<'p>(&'p self, idx: usize) -> (r: ExportRef<'p>)
        requires
            idx < self.exports@.len(),
        ensures
            r.pkg == self,
            r.idx == idx,
    {
        ExportRef { pkg: self, idx }
    }

    /// References to all exports, in order.
    pub fn iter_exports<'p>(&'p self) -> (r: Vec<ExportRef<'p>>)
        ensures
            r@.len() == self.exports@.len(),
            forall|i: int| 0 <= i < r@.len() ==> (#[trigger] r@[i]).pkg == self && r@[i].idx == i,
    {
        let mut r: Vec<ExportRef<'p>> = Vec::new();
        let mut i: usize = 0;
        while i < self.exports.len()
            invariant
                i <= self.exports@.len(),
                r@.len() == i,
                forall|j: int| 0 <= j < i ==> (#[trigger] r@[j]).pkg == self && r@[j].idx == j,
            decreases self.exports.len() - i,
        {
            r.push(ExportRef { pkg: self, idx: i });
            i += 1;
        }
        r
    }

    /// A reference to the resource that `idx` designates.
    pub fn resource_ref<'p>(&'p self, idx: ResourceIndex) -> (r: ResourceRef<'p>)
        requires
            idx matches ResourceIndex::Import(i) ==> i < self.imports@.len(),
            idx matches ResourceIndex::Export(i) ==> i < self.exports@.len(),
        ensures
            idx is Null ==> r is Null,
            idx matches ResourceIndex::Import(i) ==> (r matches ResourceRef::Import(x) && x.pkg
                == self && x.idx == i),
            idx matches ResourceIndex::Export(i) ==> (r matches ResourceRef::Export(x) && x.pkg
                == self && x.idx == i),
    {
        match idx {
            ResourceIndex::Null => ResourceRef::Null,
            ResourceIndex::Import(i) => ResourceRef::Import(self.import_ref(i)),
            ResourceIndex::Export(i) => ResourceRef::Export(self.export_ref(i)),
        }
    }
}

/// A name of a package.
#[derive(Clone, Copy)]
pub struct NameRef<'p> {
    pub pkg: &'p PackageSummary,
    pub idx: NameIndex,
}

impl<'p> NameRef<'p> {
    /// The text of the name.
    pub fn text(&self) -> (r: &'p str)
        requires
            self.idx.index < self.pkg.names@.len(),
        ensures
            r@ == self.pkg.names@[self.idx.index as int]@,
    {
        self.pkg.names[self.idx.index].as_str()
    }

    /// The text of the name followed, when it has an instance `n`, by `_` and `n - 1`
    /// (wrapping around below zero).
    pub fn to_string(&self) -> (r: String)
        requires
            self.idx.index < self.pkg.names@.len(),
        ensures
            r@ == name_with_instance(self.pkg.names@[self.idx.index as int]@, self.idx.instance),
    {
        let mut s = String::new();
        crate::text::push_str(&mut s, self.text());
        match self.idx.instance {
            Some(instance) => {
                s.push('_');
                crate::text::push_decimal(&mut s, instance.wrapping_sub(1) as u64);
            },
            None => {},
        }
        s
    }
}

/// The text of a name with an optional instance number.
pub open spec fn name_with_instance(text: Seq<char>, instance: Option<u32>) -> Seq<char> {
    match instance {
        Some(i) => text.push('_') + crate::text::decimal_digits(
            (if i == 0 {
                u32::MAX as int
            } else {
                i - 1
            }) as nat,
        ),
        None => text,
    }
}

/// An import of a package.
#[derive(Clone, Copy)]
pub struct ImportRef<'p> {
    pub pkg: &'p PackageSummary,
    pub idx: usize,
}

impl<'p> ImportRef<'p> {
    /// The import itself.
    pub open spec fn import(&self) -> Import {
        self.pkg.imports@[self.idx as int]
    }

    /// The package that the import comes from.
    pub fn package(&self) -> (r: NameRef<'p>)
        requires
            self.idx < self.pkg.imports@.len(),
            self.import().package.index < self.pkg.names@.len(),
        ensures
            r.pkg == self.pkg && r.idx == self.import().package,
    {
        self.pkg.name_ref(self.pkg.imports[self.idx].package)
    }

    /// The class of the imported object.
    pub fn class(&self) -> (r: NameRef<'p>)
        requires
            self.idx < self.pkg.imports@.len(),
            self.import().class.index < self.pkg.names@.len(),
        ensures
            r.pkg == self.pkg && r.idx == self.import().class,
    {
        self.pkg.name_ref(self.pkg.imports[self.idx].class)
    }

    /// The object that contains the imported one.
    pub fn outer(&self) -> (r: ResourceRef<'p>)
        requires
            self.idx < self.pkg.imports@.len(),
            self.import().outer matches ResourceIndex::Import(i) ==> i < self.pkg.imports@.len(),
            self.import().outer matches ResourceIndex::Export(i) ==> i < self.pkg.exports@.len(),
        ensures
            self.import().outer is Null ==> r is Null,
            self.import().outer matches ResourceIndex::Import(i) ==> (r matches ResourceRef::Import(
                x,
            ) && x.pkg == self.pkg && x.idx == i),
            self.import().outer matches ResourceIndex::Export(i) ==> (r matches ResourceRef::Export(
                x,
            ) && x.pkg == self.pkg && x.idx == i),
    {
        self.pkg.resource_ref(self.pkg.imports[self.idx].outer)
    }

    /// The name of the imported object.
    pub fn name(&self) -> (r: NameRef<'p>)
        requires
            self.idx < self.pkg.imports@.len(),
            self.import().name.index < self.pkg.names@.len(),
        ensures
            r.pkg == self.pkg && r.idx == self.import().name,
    {
        self.pkg.name_ref(self.pkg.imports[self.idx].name)
    }

    /// The position of the import in the table.
    pub fn index(&self) -> (r: usize)
        ensures
            r == self.idx,
    {
        self.idx
    }
}

/// An export of a package.
#[derive(Clone, Copy)]
pub struct ExportRef<'p> {
    pub pkg: &'p PackageSummary,
    pub idx: usize,
}

impl<'p> ExportRef<'p> {
    /// The position of the export in the table.
    pub fn index(&self) -> (r: usize)
        ensures
            r == self.idx,
    {
        self.idx
    }
}

impl From<usize> for NameIndex {
    /// The name at `index`, without an instance number.
    fn from(index: usize) -> (r: Self) {
        NameIndex { index, instance: None }
    }
}

impl vstd::std_specs::convert::FromSpecImpl<usize> for NameIndex {
    open spec fn obeys_from_spec() -> bool {
        true
    }

    open spec fn from_spec(index: usize) -> NameIndex {
        NameIndex { index, instance: None }
    }
}

impl<'p> From<ImportRef<'p>> for ResourceIndex {
    /// The index of an import.
    fn from(r: ImportRef<'p>) -> (i: Self) {
        ResourceIndex::Import(r.idx)
    }
}

impl<'p> vstd::std_specs::convert::FromSpecImpl<ImportRef<'p>> for ResourceIndex {
    open spec fn obeys_from_spec() -> bool {
        true
    }

    open spec fn from_spec(r: ImportRef<'p>) -> ResourceIndex {
        ResourceIndex::Import(r.idx)
    }
}

impl<'p> From<ExportRef<'p>> for ResourceIndex {
    /// The index of an export.
    fn from(r: ExportRef<'p>) -> (i: Self) {
        ResourceIndex::Export(r.idx)
    }
}

impl<'p> vstd::std_specs::convert::FromSpecImpl<ExportRef<'p>> for ResourceIndex {
    open spec fn obeys_from_spec() -> bool {
        true
    }

    open spec fn from_spec(r: ExportRef<'p>) -> ResourceIndex {
        ResourceIndex::Export(r.idx)
    }
}

/// Nothing, an import or an export of a package.
#[derive(Clone, Copy)]
pub enum ResourceRef<'p> {
    Null,
    Import(ImportRef<'p>),
    Export(ExportRef<'p>),
}

/// A package: its path in the archive (without extension) and its summary.
pub struct Package {
    pub path: String,
    pub summary: PackageSummary,
}

fn read_name_index(d: &[u8], p: usize) -> (r: Option<(NameIndex, usize)>)
    ensures
        r matches Some((v, q)) ==> spec_name_index(d@, p as int) == Some((v, q as int)),
        r is None ==> spec_name_index(d@, p as int) is None,
{
    let (index, q) = match read_u32(d, p) {
        Some(x) => x,
        None => return None,
    };
    let (inst, q2) = match read_u32(d, q) {
        Some(x) => x,
        None => return None,
    };
    let instance = if inst > 0 {
        Some(inst - 1)
    } else {
        None
    };
    Some((NameIndex { index: index as usize, instance }, q2))
}

/// The resource that a signed 32-bit reference designates.
pub fn resource_from(i: i32) -> (r: ResourceIndex)
    ensures
        r == resource_of(i),
{
    if i == 0 {
        ResourceIndex::Null
    } else if i > 0 {
        ResourceIndex::Export((i - 1) as usize)
    } else {
        ResourceIndex::Import((-(i as i64) - 1) as usize)
    }
}

/// Reads a resource reference.
pub fn read_resource_index(d: &[u8], p: usize) -> (r: Option<(ResourceIndex, usize)>)
    ensures
        r matches Some((v, q)) ==> spec_resource_index(d@, p as int) == Some((v, q as int)),
        r is None ==> spec_resource_index(d@, p as int) is None,
{
    match read_i32(d, p) {
        Some((i, q)) => Some((resource_from(i), q)),
        None => None,
    }
}

fn read_import(d: &[u8], p: usize) -> (r: Option<(Import, usize)>)
    ensures
        r matches Some((v, q)) ==> spec_import(d@, p as int) == Some((v, q as int)),
        r is None ==> spec_import(d@, p as int) is None,
{
    let (package, q1) = read_name_index(d, p)?;
    let (class, q2) = read_name_index(d, q1)?;
    let (outer, q3) = read_resource_index(d, q2)?;
    let (name, q4) = read_name_index(d, q3)?;
    Some((Import { package, class, outer, name }, q4))
}

fn read_export(d: &[u8], p: usize) -> (r: Option<Export>)
    ensures
        r matches Some(v) ==> spec_export(d@, p as int) == Some((v, q_after_export(d@, p as int))),
        r is None ==> spec_export(d@, p as int) is None,
{
    let (class, q1) = read_resource_index(d, p)?;
    let (super_struct, q2) = read_resource_index(d, q1)?;
    let (template, q3) = read_resource_index(d, q2)?;
    let (outer, q4) = read_resource_index(d, q3)?;
    let (name, q5) = read_name_index(d, q4)?;
    let (flags, q6) = read_u32(d, q5)?;
    let (size, q7) = read_u32(d, q6)?;
    let (offset, q8) = read_u32(d, q7)?;
    Some(Export { class, super_struct, template, outer, name, flags, size, offset })
}

/// Where an export read at `p` ends.
pub open spec fn q_after_export(d: Seq<u8>, p: int) -> int {
    p + 96
}

fn read_names(w: &[u8], start: i64, n: u32) -> (r: Option<Vec<String>>)
    ensures
        r matches Some(v) ==> spec_names(w@, start as int, n as nat) == Some(strings_view(v@)),
        r is None ==> spec_names(w@, start as int, n as nat) is None,
{
    let mut v: Vec<String> = Vec::new();
    if n == 0 {
        assert(strings_view(v@) =~= Seq::<Seq<char>>::empty());
        return Some(v);
    }
    if start < 0 {
        proof {
            assert(spec_names_at(w@, start as int, 0) == Some((Seq::<Seq<char>>::empty(), start as int)));
            assert(spec_fstring(w@, start as int) is None);
            assert(spec_names_at(w@, start as int, 1) is None);
            lemma_names_none(w@, start as int, 1, n as nat);
        }
        return None;
    }
    if start as u64 > usize::MAX as u64 {
        proof {
            assert(w@.len() == w.len());
            assert(spec_fstring(w@, start as int) is None);
            assert(spec_names_at(w@, start as int, 1) is None);
            lemma_names_none(w@, start as int, 1, n as nat);
        }
        return None;
    }
    let mut p: usize = start as usize;
    let mut i: u32 = 0;
    while i < n
        invariant
            i <= n,
            spec_names_at(w@, start as int, i as nat) == Some((strings_view(v@), p as int)),
        decreases n - i,
    {
        let (s, q) = match read_fstring(w, p) {
            Some(x) => x,
            None => {
                proof {
                    lemma_names_none(w@, start as int, (i + 1) as nat, n as nat);
                }
                return None;
            },
        };
        let (_hash, q2) = match read_u32(w, q) {
            Some(x) => x,
            None => {
                proof {
                    lemma_names_none(w@, start as int, (i + 1) as nat, n as nat);
                }
                return None;
            },
        };
        let ghost old_v = v@;
        v.push(string_of(s.as_slice()));
        assert(strings_view(v@) == strings_view(old_v).push(s@));
        p = q2;
        i += 1;
    }
    proof {
        lemma_names_at(w@, start as int, n as nat);
    }
    Some(v)
}

proof fn lemma_names_none(d: Seq<u8>, p: int, i: nat, n: nat)
    requires
        1 <= i <= n,
        spec_names_at(d, p, i) is None,
    ensures
        spec_names(d, p, n) is None,
    decreases n - i,
{
    if i < n {
        lemma_names_none(d, p, i + 1, n);
    }
}

proof fn lemma_names_at(d: Seq<u8>, p: int, n: nat)
    ensures
        spec_names(d, p, n) == (match spec_names_at(d, p, n) {
            Some((v, _)) => Some(v),
            None => None,
        }),
{
}

fn read_imports(w: &[u8], start: i64, n: u32) -> (r: Option<Vec<Import>>)
    requires
        -0x1_0000_0000 <= start <= 0x1_0000_0000,
    ensures
        r matches Some(v) ==> spec_imports(w@, start as int, n as nat) == Some(v@),
        r is None ==> spec_imports(w@, start as int, n as nat) is None,
{
    let mut v: Vec<Import> = Vec::new();
    let mut i: u32 = 0;
    while i < n
        invariant
            i <= n,
            -0x1_0000_0000 <= start <= 0x1_0000_0000,
            spec_imports(w@, start as int, i as nat) == Some(v@),
        decreases n - i,
    {
        let pos: i64 = start + 28 * (i as i64);
        if pos < 0 || pos as u64 > usize::MAX as u64 {
            proof {
                assert(w@.len() == w.len());
                assert(spec_import(w@, pos as int) is None);
                lemma_imports_none(w@, start as int, (i + 1) as nat, n as nat);
            }
            return None;
        }
        match read_import(w, pos as usize) {
            Some((x, _)) => {
                v.push(x);
            },
            None => {
                proof {
                    lemma_imports_none(w@, start as int, (i + 1) as nat, n as nat);
                }
                return None;
            },
        }
        i += 1;
    }
    Some(v)
}

proof fn lemma_imports_none(d: Seq<u8>, p: int, i: nat, n: nat)
    requires
        i <= n,
        spec_imports(d, p, i) is None,
    ensures
        spec_imports(d, p, n) is None,
    decreases n - i,
{
    if i < n {
        lemma_imports_none(d, p, i + 1, n);
    }
}

fn read_exports(w: &[u8], start: i64, n: u32) -> (r: Option<Vec<Export>>)
    requires
        -0x1_0000_0000 <= start <= 0x1_0000_0000,
    ensures
        r matches Some(v) ==> spec_exports(w@, start as int, n as nat) == Some(v@),
        r is None ==> spec_exports(w@, start as int, n as nat) is None,
{
    let mut v: Vec<Export> = Vec::new();
    let mut i: u32 = 0;
    while i < n
        invariant
            i <= n,
            -0x1_0000_0000 <= start <= 0x1_0000_0000,
            spec_exports(w@, start as int, i as nat) == Some(v@),
        decreases n - i,
    {
        let pos: i64 = start + 96 * (i as i64);
        if pos < 0 || pos as u64 > usize::MAX as u64 {
            proof {
                assert(w@.len() == w.len());
                assert(spec_export(w@, pos as int) is None);
                lemma_exports_none(w@, start as int, (i + 1) as nat, n as nat);
            }
            return None;
        }
        match read_export(w, pos as usize) {
            Some(x) => {
                v.push(x);
            },
            None => {
                proof {
                    lemma_exports_none(w@, start as int, (i + 1) as nat, n as nat);
                }
                return None;
            },
        }
        i += 1;
    }
    Some(v)
}

proof fn lemma_exports_none(d: Seq<u8>, p: int, i: nat, n: nat)
    requires
        i <= n,
        spec_exports(d, p, i) is None,
    ensures
        spec_exports(d, p, n) is None,
    decreases n - i,
{
    if i < n {
        lemma_exports_none(d, p, i + 1, n);
    }
}

fn sub_bytes(d: &[u8], from: usize, to: usize) -> (r: Vec<u8>)
    requires
        from <= to <= d.len(),
    ensures
        r@ == d@.subrange(from as int, to as int),
{
    let mut r: Vec<u8> = Vec::new();
    r.extend_from_slice(&d[from..to]);
    assert(r@ =~= d@.subrange(from as int, to as int));
    r
}

impl Package {
    /// Reads the summary of the package at `path` from the data of its `.uasset` entry.
    pub fn new(path: String, d: &[u8]) -> (r: Result<Self, EngineError>)
        ensures
            r matches Ok(pkg) ==> spec_summary(d@) == Ok::<SummaryView, EngineError>(
                pkg.summary.view(),
            ) && pkg.path == path,
            r matches Err(e) ==> spec_summary(d@) == Err::<SummaryView, EngineError>(e),
    {
        let (magic, p1) = match read_u32(d, 0) {
            Some(x) => x,
            None => return Err(EngineError::UnexpectedEof),
        };
        if magic != 0x9e2a83c1 {
            return Err(EngineError::NotUasset);
        }
        let (version, p2) = match read_i32(d, p1) {
            Some(x) => x,
            None => return Err(EngineError::UnexpectedEof),
        };
        if version != -7 {
            return Err(EngineError::UnsupportedUassetVersion(version));
        }
        let (custom, p3) = match read_i32(d, p2 + 12) {
            Some(x) => x,
            None => return Err(EngineError::UnexpectedEof),
        };
        let p4 = if custom > 0 {
            match skip(p3, 20 * (custom as u64)) {
                Some(x) => x,
                None => {
                    assert(d@.len() == d.len());
                    assert(spec_u32(d@, p3 + 20 * (custom as int)) is None);
                    return Err(EngineError::UnexpectedEof);
                },
            }
        } else {
            p3
        };
        let (header_size, hbr) = match read_u32(d, p4) {
            Some(x) => x,
            None => return Err(EngineError::UnexpectedEof),
        };
        if (header_size as usize) < hbr {
            return Err(EngineError::Malformed);
        }
        if header_size as usize > d.len() {
            return Err(EngineError::UnexpectedEof);
        }
        let w = sub_bytes(d, hbr, header_size as usize);
        let w = w.as_slice();
        let ghost ws = w@;
        let r0 = match skip_fstring(w, 0) {
            Some(x) => x,
            None => return Err(EngineError::UnexpectedEof),
        };
        let r1 = match skip(r0, 4) {
            Some(x) => x,
            None => return Err(EngineError::UnexpectedEof),
        };
        let (name_count, r2) = match read_u32(w, r1) {
            Some(x) => x,
            None => return Err(EngineError::UnexpectedEof),
        };
        let (name_offset, r3) = match read_u32(w, r2) {
            Some(x) => x,
            None => return Err(EngineError::UnexpectedEof),
        };
        let r4 = r3 + 8;
        let (export_count, r5) = match read_u32(w, r4) {
            Some(x) => x,
            None => return Err(EngineError::UnexpectedEof),
        };
        let (export_offset, r6) = match read_u32(w, r5) {
            Some(x) => x,
            None => return Err(EngineError::UnexpectedEof),
        };
        let (import_count, r7) = match read_u32(w, r6) {
            Some(x) => x,
            None => return Err(EngineError::UnexpectedEof),
        };
        let (import_offset, _) = match read_u32(w, r7) {
            Some(x) => x,
            None => return Err(EngineError::UnexpectedEof),
        };
        let hbr64 = hbr as i64;
        let names = match read_names(w, name_offset as i64 - hbr64, name_count) {
            Some(x) => x,
            None => return Err(EngineError::UnexpectedEof),
        };
        let imports = match read_imports(w, import_offset as i64 - hbr64, import_count) {
            Some(x) => x,
            None => return Err(EngineError::UnexpectedEof),
        };
        let exports = match read_exports(w, export_offset as i64 - hbr64, export_count) {
            Some(x) => x,
            None => return Err(EngineError::UnexpectedEof),
        };
        Ok(Package { path, summary: PackageSummary { header_size, names, imports, exports } })
    }
}

} // verus!
