//! The record graph of a .NET binary-serialized object stream: records by id,
//! the class types they use, and where each record stood in the original bytes.
use crate::text::{str_eq, push_int, push_str, int_text, text_with_int, to_owned_string};
use std::collections::HashMap;
use vstd::prelude::*;
use vstd::string::*;
use vstd::std_specs::iter::IteratorSpec;

verus! {

broadcast use vstd::std_specs::hash::group_hash_axioms;

/// A graph of records read from, or to be written to, the binary format.
#[derive(Debug, Clone, PartialEq)]
pub struct DeserializedRecord {
    pub root_id: i32,
    pub header_id: i32,
    pub records: HashMap<i32, Record>,
    pub class_types: Vec<ClassType>,
    pub record_metadata: HashMap<i32, RecordMetadata>,
    pub record_order: Vec<i32>,
}

/// Where a record stood in the bytes it was read from.
#[derive(Debug, Clone, Copy, PartialEq, Eq, Structural)]
pub struct RecordMetadata {
    pub original_record_type: u8,
    pub start_offset: usize,
    pub end_offset: usize,
    pub original_byte_length: usize,
}

/// One record of the graph.
#[derive(Debug, Clone, PartialEq)]
pub enum Record {
    BinaryLibrary(String),
    Class(Class),
    BinaryArray(MemberType, Vec<Member>),
    PrimitiveArray(PrimitiveType, Vec<Primitive>),
    String(String),
}

/// An object: the index of its class type and its member values in the type's order.
#[derive(Debug, Clone, PartialEq)]
pub struct Class {
    pub class_type_id: usize,
    pub members: Vec<Member>,
}

/// A class: its name, library, and the names and types of its members.
#[derive(Debug, Clone, PartialEq)]
pub struct ClassType {
    pub name: String,
    pub library_id: i32,
    pub system_class: bool,
    pub member_names: Vec<String>,
    pub member_types: Vec<MemberType>,
}

/// The declared type of a member or of the items of an array.
#[derive(Debug, Clone, PartialEq)]
pub enum MemberType {
    Primitive(PrimitiveType),
    String,
    Object,
    SystemClass(String),
    Class(String, i32),
    ObjectArray,
    StringArray,
    PrimitiveArray(PrimitiveType),
}

/// A member value.
#[derive(Debug, Clone, PartialEq)]
pub enum Member {
    Primitive(Primitive),
    Reference(i32),
    Null,
    NullMultiple(i32),
}

/// The kinds of primitive value.
#[derive(Debug, Clone, Copy, PartialEq, Eq, Structural)]
pub enum PrimitiveType {
    Boolean,
    Byte,
    Char,
    Decimal,
    Double,
    Int16,
    Int32,
    Int64,
    Int8,
    Single,
    TimeSpan,
    DateTime,
    UInt16,
    UInt32,
    UInt64,
    Null,
    String,
}

/// A primitive value. A `Double` holds the IEEE-754 binary64 bit pattern of the
/// value and a `Single` its binary32 bit pattern, exactly as the format stores them.
#[derive(Debug, Clone, PartialEq)]
pub enum Primitive {
    Boolean(bool),
    Byte(u8),
    Char(char),
    Decimal(String),
    Double(u64),
    Int16(i16),
    Int32(i32),
    Int64(i64),
    Int8(i8),
    Single(u32),
    TimeSpan(i64),
    DateTime(i64),
    UInt16(u16),
    UInt32(u32),
    UInt64(u64),
    Null,
    String(String),
}

/// The mathematical value of a `Primitive`.
pub enum PrimitiveV {
    Boolean(bool),
    Byte(u8),
    Char(char),
    Decimal(Seq<char>),
    Double(u64),
    Int16(i16),
    Int32(i32),
    Int64(i64),
    Int8(i8),
    Single(u32),
    TimeSpan(i64),
    DateTime(i64),
    UInt16(u16),
    UInt32(u32),
    UInt64(u64),
    Null,
    String(Seq<char>),
}

/// The mathematical value of a `Member`.
pub enum MemberV {
    Primitive(PrimitiveV),
    Reference(i32),
    Null,
    NullMultiple(i32),
}

/// The mathematical value of a `MemberType`.
pub enum MemberTypeV {
    Primitive(PrimitiveType),
    String,
    Object,
    SystemClass(Seq<char>),
    Class(Seq<char>, i32),
    ObjectArray,
    StringArray,
    PrimitiveArray(PrimitiveType),
}

/// The mathematical value of a `ClassType`.
pub struct ClassTypeV {
    pub name: Seq<char>,
    pub library_id: i32,
    pub system_class: bool,
    pub member_names: Seq<Seq<char>>,
    pub member_types: Seq<MemberTypeV>,
}

/// The mathematical value of a `Class`.
pub struct ClassV {
    pub class_type_id: usize,
    pub members: Seq<MemberV>,
}

/// The mathematical value of a `Record`.
pub enum RecordV {
    BinaryLibrary(Seq<char>),
    Class(ClassV),
    BinaryArray(MemberTypeV, Seq<MemberV>),
    PrimitiveArray(PrimitiveType, Seq<PrimitiveV>),
    String(Seq<char>),
}

/// The mathematical value of a `DeserializedRecord`.
pub struct DeserializedRecordV {
    pub root_id: i32,
    pub header_id: i32,
    pub records: Map<i32, RecordV>,
    pub class_types: Seq<ClassTypeV>,
    pub record_metadata: Map<i32, RecordMetadata>,
    pub record_order: Seq<i32>,
}

impl View for Primitive {
    type V = PrimitiveV;

    open spec fn view(&self) -> PrimitiveV {
        match self {
            Primitive::Boolean(b) => PrimitiveV::Boolean(*b),
            Primitive::Byte(b) => PrimitiveV::Byte(*b),
            Primitive::Char(c) => PrimitiveV::Char(*c),
            Primitive::Decimal(s) => PrimitiveV::Decimal(s@),
            Primitive::Double(d) => PrimitiveV::Double(*d),
            Primitive::Int16(i) => PrimitiveV::Int16(*i),
            Primitive::Int32(i) => PrimitiveV::Int32(*i),
            Primitive::Int64(i) => PrimitiveV::Int64(*i),
            Primitive::Int8(i) => PrimitiveV::Int8(*i),
            Primitive::Single(f) => PrimitiveV::Single(*f),
            Primitive::TimeSpan(i) => PrimitiveV::TimeSpan(*i),
            Primitive::DateTime(i) => PrimitiveV::DateTime(*i),
            Primitive::UInt16(u) => PrimitiveV::UInt16(*u),
            Primitive::UInt32(u) => PrimitiveV::UInt32(*u),
            Primitive::UInt64(u) => PrimitiveV::UInt64(*u),
            Primitive::Null => PrimitiveV::Null,
            Primitive::String(s) => PrimitiveV::String(s@),
        }
    }
}

impl View for Member {
    type V = MemberV;

    open spec fn view(&self) -> MemberV {
        match self {
            Member::Primitive(p) => MemberV::Primitive(p@),
            Member::Reference(id) => MemberV::Reference(*id),
            Member::Null => MemberV::Null,
            Member::NullMultiple(n) => MemberV::NullMultiple(*n),
        }
    }
}

impl View for MemberType {
    type V = MemberTypeV;

    open spec fn view(&self) -> MemberTypeV {
        match self {
            MemberType::Primitive(p) => MemberTypeV::Primitive(*p),
            MemberType::String => MemberTypeV::String,
            MemberType::Object => MemberTypeV::Object,
            MemberType::SystemClass(s) => MemberTypeV::SystemClass(s@),
            MemberType::Class(s, l) => MemberTypeV::Class(s@, *l),
            MemberType::ObjectArray => MemberTypeV::ObjectArray,
            MemberType::StringArray => MemberTypeV::StringArray,
            MemberType::PrimitiveArray(p) => MemberTypeV::PrimitiveArray(*p),
        }
    }
}

/// The views of a sequence of strings.
pub open spec fn strings_view(s: Seq<String>) -> Seq<Seq<char>> {
    s.map_values(|x: String| x@)
}

/// The views of a sequence of member types.
pub open spec fn member_types_view(s: Seq<MemberType>) -> Seq<MemberTypeV> {
    s.map_values(|x: MemberType| x@)
}

/// The views of a sequence of members.
pub open spec fn members_view(s: Seq<Member>) -> Seq<MemberV> {
    s.map_values(|x: Member| x@)
}

/// The views of a sequence of primitives.
pub open spec fn primitives_view(s: Seq<Primitive>) -> Seq<PrimitiveV> {
    s.map_values(|x: Primitive| x@)
}

impl View for ClassType {
    type V = ClassTypeV;

    open spec fn view(&self) -> ClassTypeV {
        ClassTypeV {
            name: self.name@,
            library_id: self.library_id,
            system_class: self.system_class,
            member_names: strings_view(self.member_names@),
            member_types: member_types_view(self.member_types@),
        }
    }
}

impl View for Class {
    type V = ClassV;

    open spec fn view(&self) -> ClassV {
        ClassV { class_type_id: self.class_type_id, members: members_view(self.members@) }
    }
}

impl View for Record {
    type V = RecordV;

    open spec fn view(&self) -> RecordV {
        match self {
            Record::BinaryLibrary(s) => RecordV::BinaryLibrary(s@),
            Record::Class(c) => RecordV::Class(c@),
            Record::BinaryArray(t, v) => RecordV::BinaryArray(t@, members_view(v@)),
            Record::PrimitiveArray(t, v) => RecordV::PrimitiveArray(*t, primitives_view(v@)),
            Record::String(s) => RecordV::String(s@),
        }
    }
}

/// The views of a sequence of class types.
pub open spec fn class_types_view(s: Seq<ClassType>) -> Seq<ClassTypeV> {
    s.map_values(|x: ClassType| x@)
}

impl View for DeserializedRecord {
    type V = DeserializedRecordV;

    open spec fn view(&self) -> DeserializedRecordV {
        DeserializedRecordV {
            root_id: self.root_id,
            header_id: self.header_id,
            records: self.records@.map_values(|r: Record| r@),
            class_types: class_types_view(self.class_types@),
            record_metadata: self.record_metadata@,
            record_order: self.record_order@,
        }
    }
}

/// Position of the first name at or after `i` equal to `name`, if any.
pub open spec fn first_index_from(names: Seq<Seq<char>>, name: Seq<char>, i: int) -> Option<int>
    decreases names.len() - i,
{
    if i < 0 || i >= names.len() {
        None
    } else if names[i] == name {
        Some(i)
    } else {
        first_index_from(names, name, i + 1)
    }
}

/// Position of the first name equal to `name`, if any.
pub open spec fn first_index_of(names: Seq<Seq<char>>, name: Seq<char>) -> Option<int> {
    first_index_from(names, name, 0)
}

/// What `first_index_of` finds is a position of `name`, before which `name` is absent.
pub proof fn lemma_first_index_of(names: Seq<Seq<char>>, name: Seq<char>, i: int)
    requires
        0 <= i,
    ensures
        first_index_from(names, name, i) matches Some(k) ==> i <= k < names.len() && names[k]
            == name && forall|j: int| i <= j < k ==> names[j] != name,
        first_index_from(names, name, i) is None ==> forall|j: int|
            i <= j < names.len() ==> names[j] != name,
    decreases names.len() - i,
{
    if i < names.len() {
        lemma_first_index_of(names, name, i + 1);
    }
}

/// Finds the first name in `names` equal to `name`.
pub fn position_of(names: &Vec<String>, name: &str) -> (r: Option<usize>)
    ensures
        r matches Some(i) ==> first_index_of(strings_view(names@), name@) == Some(i as int),
        r is None ==> first_index_of(strings_view(names@), name@) is None,
{
    let ghost sv = strings_view(names@);
    let mut i: usize = 0;
    while i < names.len()
        invariant
            i <= names@.len(),
            sv == strings_view(names@),
            first_index_from(sv, name@, 0) == first_index_from(sv, name@, i as int),
        decreases names@.len() - i,
    {
        if str_eq(names[i].as_str(), name) {
            return Some(i);
        }
        i = i + 1;
    }
    None
}

impl Record {
    /// The class of a `Class` record.
    pub fn as_class(&self) -> (c: &Class)
        requires
            self is Class,
        ensures
            *self == Record::Class(*c),
    {
        match self {
            Record::Class(class) => class,
            _ => {
                proof { assert(false); }
                unreached()
            },
        }
    }

    /// The values of a `BinaryArray` record.
    pub fn as_binary_array(&self) -> (a: &[Member])
        requires
            self is BinaryArray,
        ensures
            self matches Record::BinaryArray(_, v) && a@ == v@,
    {
        match self {
            Record::BinaryArray(_, array) => array.as_slice(),
            _ => {
                proof { assert(false); }
                unreached()
            },
        }
    }

    /// The class of a `Class` record, to change in place.
    pub fn as_class_mut(&mut self) -> (c: &mut Class)
        requires
            *old(self) is Class,
        ensures
            *old(self) == Record::Class(*c),
            *final(self) == Record::Class(*final(c)),
    {
        match self {
            Record::Class(class) => class,
            _ => {
                proof { assert(false); }
                unreached()
            },
        }
    }

    /// The values of a `BinaryArray` record, to change in place.
    pub fn as_binary_array_mut(&mut self) -> (a: &mut Vec<Member>)
        requires
            *old(self) is BinaryArray,
        ensures
            *old(self) matches Record::BinaryArray(t, v) && *a == v && *final(self)
                == Record::BinaryArray(t, *final(a)),
    {
        match self {
            Record::BinaryArray(_, array) => array,
            _ => {
                proof { assert(false); }
                unreached()
            },
        }
    }

    /// The text of a `String` record.
    pub fn as_string(&self) -> (s: &str)
        requires
            self is String,
        ensures
            self matches Record::String(v) && s@ == v@,
    {
        match self {
            Record::String(s) => s.as_str(),
            _ => {
                proof { assert(false); }
                unreached()
            },
        }
    }
}

impl Member {
    /// The id that a `Reference` member points to.
    pub fn as_reference(&self) -> (id: &i32)
        requires
            self is Reference,
        ensures
            *self == Member::Reference(*id),
    {
        match self {
            Member::Reference(id) => id,
            _ => {
                proof { assert(false); }
                unreached()
            },
        }
    }

    /// The value of an `Int32` primitive member.
    pub fn as_i32(&self) -> (v: i32)
        requires
            self matches Member::Primitive(Primitive::Int32(_)),
        ensures
            *self == Member::Primitive(Primitive::Int32(v)),
    {
        match self {
            Member::Primitive(Primitive::Int32(val)) => *val,
            _ => {
                proof { assert(false); }
                unreached()
            },
        }
    }
}

/// The kind of a primitive value.
pub open spec fn primitive_type_of(p: PrimitiveV) -> PrimitiveType {
    match p {
        PrimitiveV::Boolean(..) => PrimitiveType::Boolean,
        PrimitiveV::Byte(..) => PrimitiveType::Byte,
        PrimitiveV::Char(..) => PrimitiveType::Char,
        PrimitiveV::Decimal(..) => PrimitiveType::Decimal,
        PrimitiveV::Double(..) => PrimitiveType::Double,
        PrimitiveV::Int16(..) => PrimitiveType::Int16,
        PrimitiveV::Int32(..) => PrimitiveType::Int32,
        PrimitiveV::Int64(..) => PrimitiveType::Int64,
        PrimitiveV::Int8(..) => PrimitiveType::Int8,
        PrimitiveV::Single(..) => PrimitiveType::Single,
        PrimitiveV::TimeSpan(..) => PrimitiveType::TimeSpan,
        PrimitiveV::DateTime(..) => PrimitiveType::DateTime,
        PrimitiveV::UInt16(..) => PrimitiveType::UInt16,
        PrimitiveV::UInt32(..) => PrimitiveType::UInt32,
        PrimitiveV::UInt64(..) => PrimitiveType::UInt64,
        PrimitiveV::Null => PrimitiveType::Null,
        PrimitiveV::String(..) => PrimitiveType::String,
    }
}

impl Primitive {
    /// The kind of this value.
    pub fn primitive_type(&self) -> (t: PrimitiveType)
        ensures
            t == primitive_type_of(self@),
    {
        match self {
            Primitive::Boolean(..) => PrimitiveType::Boolean,
            Primitive::Byte(..) => PrimitiveType::Byte,
            Primitive::Char(..) => PrimitiveType::Char,
            Primitive::Decimal(..) => PrimitiveType::Decimal,
            Primitive::Double(..) => PrimitiveType::Double,
            Primitive::Int16(..) => PrimitiveType::Int16,
            Primitive::Int32(..) => PrimitiveType::Int32,
            Primitive::Int64(..) => PrimitiveType::Int64,
            Primitive::Int8(..) => PrimitiveType::Int8,
            Primitive::Single(..) => PrimitiveType::Single,
            Primitive::TimeSpan(..) => PrimitiveType::TimeSpan,
            Primitive::DateTime(..) => PrimitiveType::DateTime,
            Primitive::UInt16(..) => PrimitiveType::UInt16,
            Primitive::UInt32(..) => PrimitiveType::UInt32,
            Primitive::UInt64(..) => PrimitiveType::UInt64,
            Primitive::Null => PrimitiveType::Null,
            Primitive::String(..) => PrimitiveType::String,
        }
    }
}

/// The message for a member that points to a record the graph lacks.
pub open spec fn missing_reference_message(owner: i32, target: i32) -> Seq<char> {
    "Record "@ + int_text(owner as int) + " references missing record "@ + int_text(target as int)
}

/// Position of the first member at or after `i` that points to a missing record.
pub open spec fn first_missing_from(recs: Map<i32, Record>, ms: Seq<Member>, i: int) -> Option<i32>
    decreases ms.len() - i,
{
    if i < 0 || i >= ms.len() {
        None
    } else {
        match ms[i] {
            Member::Reference(t) => if !recs.contains_key(t) {
                Some(t)
            } else {
                first_missing_from(recs, ms, i + 1)
            },
            _ => first_missing_from(recs, ms, i + 1),
        }
    }
}

/// Whether the record at `(id, class)` would fail `patch_class_member` by indexing past its
/// members (the original panics there).
pub open spec fn patch_index_in_bounds(g: DeserializedRecord, id: i32, name: Seq<char>) -> bool {
    g.records@.contains_key(id) && g.records@[id] is Class ==> {
        let c = g.records@[id]->Class_0;
        &&& c.class_type_id < g.class_types.len()
        &&& match first_index_of(strings_view(g.class_types@[c.class_type_id as int].member_names@), name) {
            Some(k) => c.members.len() == g.class_types@[c.class_type_id as int].member_types.len()
                ==> k < c.members.len(),
            None => true,
        }
    }
}

/// What `patch_class_member` does with the graph: the position of the member to
/// replace, or the message it refuses with.
pub open spec fn patch_outcome(g: DeserializedRecord, id: i32, name: Seq<char>) -> Result<int, Seq<char>> {
    if !g.records@.contains_key(id) {
        Err("Missing class record "@ + int_text(id as int))
    } else {
        match g.records@[id] {
            Record::Class(c) => {
                let ct = g.class_types@[c.class_type_id as int];
                match first_index_of(strings_view(ct.member_names@), name) {
                    None => Err(
                        "Member '"@ + name + "' not found in class '"@ + ct.name@ + "'"@,
                    ),
                    Some(k) => if c.members.len() != ct.member_types.len() {
                        Err(
                            "Class record "@ + int_text(id as int) + " member count mismatch: expected "@
                                + int_text(ct.member_types.len() as int) + ", got "@ + int_text(
                                c.members.len() as int,
                            ),
                        )
                    } else {
                        Ok(k)
                    },
                }
            },
            _ => Err("Record "@ + int_text(id as int) + " is not a Class"@),
        }
    }
}

impl DeserializedRecord {
    /// Whether `m` points, if at all, to a record of this graph.
    pub open spec fn member_ref_ok(self, m: Member) -> bool {
        m matches Member::Reference(t) ==> self.records@.contains_key(t)
    }

    /// The message of the first faulty record among `s`, if any.
    pub open spec fn first_fault(self, s: Seq<(i32, Record)>) -> Option<Seq<char>>
        decreases s.len(),
    {
        if s.len() == 0 {
            None
        } else {
            match self.record_error(s[0].0, s[0].1) {
                Some(e) => Some(e),
                None => self.first_fault(s.drop_first()),
            }
        }
    }

    /// The message `validate_graph` gives, if the graph is faulty: the missing
    /// root, or the first faulty record in the order the record map is walked.
    pub open spec fn graph_error(self) -> Option<Seq<char>> {
        if !self.records@.contains_key(self.root_id) {
            Some("Missing root record "@ + int_text(self.root_id as int))
        } else {
            self.first_fault(vstd::std_specs::hash::into_iter(vstd::std_specs::hash::spec_hash_map_iter(&self.records)))
        }
    }

    /// A sequence with no faulty record before `k` has the same first fault as
    /// its part from `k` on.
    pub proof fn lemma_first_fault_skip(self, s: Seq<(i32, Record)>, k: int)
        requires
            0 <= k <= s.len(),
            forall|j: int| 0 <= j < k ==> self.record_error(s[j].0, s[j].1) is None,
        ensures
            self.first_fault(s) == self.first_fault(s.skip(k)),
        decreases k,
    {
        if k > 0 {
            self.lemma_first_fault_skip(s.drop_first(), k - 1);
            assert(s.drop_first().skip(k - 1) =~= s.skip(k));
        } else {
            assert(s.skip(0) =~= s);
        }
    }

    /// The message `validate_graph` gives for record `id`, if that record is faulty.
    pub open spec fn record_error(self, id: i32, r: Record) -> Option<Seq<char>> {
        match r {
            Record::Class(c) => {
                if c.class_type_id >= self.class_types.len() {
                    Some(
                        "Record "@ + int_text(id as int) + " uses invalid class_type_id "@ + int_text(
                            c.class_type_id as int,
                        ),
                    )
                } else if c.members.len() != self.class_types@[c.class_type_id as int].member_types.len() {
                    Some(
                        "Record "@ + int_text(id as int) + " class '"@
                            + self.class_types@[c.class_type_id as int].name@
                            + "' member count mismatch: expected "@ + int_text(
                            self.class_types@[c.class_type_id as int].member_types.len() as int,
                        ) + ", got "@ + int_text(c.members.len() as int),
                    )
                } else {
                    match first_missing_from(self.records@, c.members@, 0) {
                        Some(t) => Some(missing_reference_message(id, t)),
                        None => None,
                    }
                }
            },
            Record::BinaryArray(_, vals) => match first_missing_from(self.records@, vals@, 0) {
                Some(t) => Some(missing_reference_message(id, t)),
                None => None,
            },
            _ => None,
        }
    }

    /// The graph has its root, every class record has a valid class type and one
    /// value per member type, and every reference points to a record of the graph.
    pub open spec fn graph_valid(self) -> bool {
        &&& self.records@.contains_key(self.root_id)
        &&& forall|id: i32| #[trigger]
            self.records@.contains_key(id) ==> self.record_error(id, self.records@[id]) is None
    }

    /// In a graph that passes validation, every class record names an existing
    /// class type and holds exactly one value per member type of it, and every
    /// reference of a class record or an array of members points to a record of
    /// the graph.
    pub proof fn law_valid_graph_records_match_types(self, id: i32)
        requires
            self.graph_valid(),
            self.records@.contains_key(id),
        ensures
            self.records@[id] matches Record::Class(c) ==> {
                &&& c.class_type_id < self.class_types.len()
                &&& c.members.len() == self.class_types@[c.class_type_id as int].member_types.len()
                &&& forall|k: int| 0 <= k < c.members.len() ==> self.member_ref_ok(#[trigger] c.members@[k])
            },
            self.records@[id] matches Record::BinaryArray(_, vals) ==> forall|k: int|
                0 <= k < vals.len() ==> self.member_ref_ok(#[trigger] vals@[k]),
    {
        assert(self.record_error(id, self.records@[id]) is None);
        match self.records@[id] {
            Record::Class(c) => crate::serializer::lemma_first_missing_none(self, c.members@, 0),
            Record::BinaryArray(_, v) => crate::serializer::lemma_first_missing_none(self, v@, 0),
            _ => {},
        }
    }

    /// The class type of a class.
    pub fn class_type(&self, class: &Class) -> (t: &ClassType)
        requires
            class.class_type_id < self.class_types.len(),
        ensures
            *t == self.class_types@[class.class_type_id as int],
    {
        &self.class_types[class.class_type_id]
    }

    /// Position, in its class type, of the member named `name`.
    pub fn class_member_index(&self, class: &Class, name: &str) -> (i: usize)
        requires
            class.class_type_id < self.class_types.len(),
            first_index_of(
                strings_view(self.class_types@[class.class_type_id as int].member_names@),
                name@,
            ) is Some,
        ensures
            first_index_of(
                strings_view(self.class_types@[class.class_type_id as int].member_names@),
                name@,
            ) == Some(i as int),
    {
        let class_type = self.class_type(class);
        match position_of(&class_type.member_names, name) {
            Some(i) => i,
            None => {
                proof { assert(false); }
                unreached()
            },
        }
    }

    /// The value of the member named `name` in `class`.
    pub fn class_member<'a>(&'a self, class: &'a Class, name: &str) -> (m: &'a Member)
        requires
            class.class_type_id < self.class_types.len(),
            first_index_of(
                strings_view(self.class_types@[class.class_type_id as int].member_names@),
                name@,
            ) matches Some(k) && k < class.members.len(),
        ensures
            first_index_of(
                strings_view(self.class_types@[class.class_type_id as int].member_names@),
                name@,
            ) matches Some(k) && *m == class.members@[k],
    {
        let i = self.class_member_index(class, name);
        &class.members[i]
    }

    /// The record that the member named `name` of `class` points to.
    pub fn class_member_deref<'a>(&'a self, class: &'a Class, name: &str) -> (r: &'a Record)
        requires
            class.class_type_id < self.class_types.len(),
            first_index_of(
                strings_view(self.class_types@[class.class_type_id as int].member_names@),
                name@,
            ) matches Some(k) && k < class.members.len() && (class.members@[k] matches Member::Reference(
                t,
            ) && self.records@.contains_key(t)),
        ensures
            first_index_of(
                strings_view(self.class_types@[class.class_type_id as int].member_names@),
                name@,
            ) matches Some(k) && (class.members@[k] matches Member::Reference(t) && *r
                == self.records@[t]),
    {
        let id = self.class_member(class, name).as_reference();
        match self.records.get(id) {
            Some(r) => r,
            None => {
                proof { assert(false); }
                unreached()
            },
        }
    }

    /// The value of the member named `name` in `class`, to change in place.
    pub fn class_member_mut<'a>(&'a mut self, class: &'a mut Class, name: &str) -> (m: &'a mut Member)
        requires
            old(class).class_type_id < old(self).class_types.len(),
            first_index_of(
                strings_view(old(self).class_types@[old(class).class_type_id as int].member_names@),
                name@,
            ) matches Some(k) && k < old(class).members.len(),
        ensures
            *final(self) == *old(self),
            first_index_of(
                strings_view(old(self).class_types@[old(class).class_type_id as int].member_names@),
                name@,
            ) matches Some(k) && (*m == old(class).members@[k] && final(class).members@ == old(
                class,
            ).members@.update(k, *final(m)) && final(class).class_type_id == old(class).class_type_id),
    {
        let index = self.class_member_index(class, name);
        &mut class.members[index]
    }

    /// Replaces, in class record `class_record_id`, the value of the member named `name`.
    pub fn patch_class_member(&mut self, class_record_id: i32, name: &str, member: Member) -> (r:
        Result<(), String>)
        requires
            patch_index_in_bounds(*old(self), class_record_id, name@),
        ensures
            final(self).root_id == old(self).root_id,
            final(self).header_id == old(self).header_id,
            final(self).class_types == old(self).class_types,
            final(self).record_metadata == old(self).record_metadata,
            final(self).record_order == old(self).record_order,
            match patch_outcome(*old(self), class_record_id, name@) {
                Err(msg) => (r matches Err(e) && e@ == msg) && final(self).records@ == old(self).records@,
                Ok(k) => r is Ok && final(self).records@.remove(class_record_id) == old(
                    self,
                ).records@.remove(class_record_id) && final(self).records@.contains_key(class_record_id)
                    && (final(self).records@[class_record_id] matches Record::Class(c2) && old(
                    self,
                ).records@[class_record_id] matches Record::Class(c) && c2.class_type_id
                    == c.class_type_id && c2.members@ == c.members@.update(k, member)),
            },
    {
        let class_type_id = match self.records.get(&class_record_id) {
            Some(Record::Class(class)) => class.class_type_id,
            Some(_) => {
                let mut e = text_with_int("Record ", class_record_id as i128);
                push_str(&mut e, " is not a Class");
                return Err(e);
            },
            None => {
                return Err(text_with_int("Missing class record ", class_record_id as i128));
            },
        };
        let member_index = match position_of(&self.class_types[class_type_id].member_names, name) {
            Some(i) => i,
            None => {
                let mut e = to_owned_string("Member '");
                push_str(&mut e, name);
                push_str(&mut e, "' not found in class '");
                push_str(&mut e, self.class_types[class_type_id].name.as_str());
                push_str(&mut e, "'");
                return Err(e);
            },
        };
        let expected = self.class_types[class_type_id].member_types.len();
        let ghost old_records = self.records@;
        let removed = self.records.remove(&class_record_id);
        match removed {
            Some(Record::Class(mut class)) => {
                if class.members.len() != expected {
                    let mut e = text_with_int("Class record ", class_record_id as i128);
                    push_str(&mut e, " member count mismatch: expected ");
                    push_int(&mut e, expected as i128);
                    push_str(&mut e, ", got ");
                    push_int(&mut e, class.members.len() as i128);
                    self.records.insert(class_record_id, Record::Class(class));
                    assert(self.records@ =~= old_records);
                    return Err(e);
                }
                class.members.set(member_index, member);
                self.records.insert(class_record_id, Record::Class(class));
                assert(self.records@.remove(class_record_id) =~= old_records.remove(class_record_id));
                Ok(())
            },
            _ => {
                proof { assert(false); }
                unreached()
            },
        }
    }

    /// Where record `record_id` stood in the original bytes, if known.
    pub fn record_metadata(&self, record_id: i32) -> (m: Option<&RecordMetadata>)
        ensures
            m is Some <==> self.record_metadata@.contains_key(record_id),
            m matches Some(x) ==> *x == self.record_metadata@[record_id],
    {
        self.record_metadata.get(&record_id)
    }

    /// Checks that `member` points, if at all, to a record of this graph.
    fn validate_member_reference(&self, owner_record_id: i32, member: &Member) -> (r: Result<(), String>)
        ensures
            r is Ok <==> self.member_ref_ok(*member),
            r matches Err(e) ==> member matches Member::Reference(t) && e@
                == missing_reference_message(owner_record_id, *t),
    {
        if let Member::Reference(reference_id) = member {
            if !self.records.contains_key(reference_id) {
                let mut e = text_with_int("Record ", owner_record_id as i128);
                push_str(&mut e, " references missing record ");
                push_int(&mut e, *reference_id as i128);
                return Err(e);
            }
        }
        Ok(())
    }

    fn validate_members(&self, owner_record_id: i32, members: &Vec<Member>) -> (r: Result<(), String>)
        ensures
            r is Ok <==> first_missing_from(self.records@, members@, 0) is None,
            r matches Err(e) ==> first_missing_from(self.records@, members@, 0) matches Some(t)
                && e@ == missing_reference_message(owner_record_id, t),
    {
        let mut i: usize = 0;
        while i < members.len()
            invariant
                i <= members@.len(),
                first_missing_from(self.records@, members@, 0) == first_missing_from(
                    self.records@,
                    members@,
                    i as int,
                ),
            decreases members@.len() - i,
        {
            self.validate_member_reference(owner_record_id, &members[i])?;
            i = i + 1;
        }
        Ok(())
    }

    fn validate_record(&self, record_id: i32, record: &Record) -> (r: Result<(), String>)
        ensures
            r is Ok <==> self.record_error(record_id, *record) is None,
            r matches Err(e) ==> self.record_error(record_id, *record) == Some(e@),
    {
        match record {
            Record::Class(class) => {
                if class.class_type_id >= self.class_types.len() {
                    let mut e = text_with_int("Record ", record_id as i128);
                    push_str(&mut e, " uses invalid class_type_id ");
                    push_int(&mut e, class.class_type_id as i128);
                    return Err(e);
                }
                let class_type = &self.class_types[class.class_type_id];
                if class.members.len() != class_type.member_types.len() {
                    let mut e = text_with_int("Record ", record_id as i128);
                    push_str(&mut e, " class '");
                    push_str(&mut e, class_type.name.as_str());
                    push_str(&mut e, "' member count mismatch: expected ");
                    push_int(&mut e, class_type.member_types.len() as i128);
                    push_str(&mut e, ", got ");
                    push_int(&mut e, class.members.len() as i128);
                    return Err(e);
                }
                self.validate_members(record_id, &class.members)
            },
            Record::BinaryArray(_, values) => self.validate_members(record_id, values),
            _ => Ok(()),
        }
    }

    /// Checks the graph: its root is present, and each record is sound.
    /// Records are visited in the map's order, and the first faulty one found is reported.
    pub fn validate_graph(&self) -> (r: Result<(), String>)
        ensures
            !self.records@.contains_key(self.root_id) ==> (r matches Err(e) && e@ == "Missing root record "@
                + int_text(self.root_id as int)),
            r is Ok <==> self.graph_valid(),
            self.records@.contains_key(self.root_id) ==> (r matches Err(e) ==> exists|id: i32|
                self.records@.contains_key(id) && self.record_error(id, self.records@[id])
                    == Some(e@)),
            match self.graph_error() {
                None => r is Ok,
                Some(m) => r matches Err(e) && e@ == m,
            },
    {
        if !self.records.contains_key(&self.root_id) {
            return Err(text_with_int("Missing root record ", self.root_id as i128));
        }
        let ghost m = self.records@;
        for (record_id, record) in it: self.records.iter()
            invariant
                m == self.records@,
                m.contains_key(self.root_id),
                it.seq() == vstd::std_specs::hash::spec_hash_map_iter(&self.records).remaining(),
                vstd::std_specs::hash::into_iter(vstd::std_specs::hash::spec_hash_map_iter(&self.records))
                    == it.seq().unref(),
                forall|j: int| 0 <= j < it.index() ==> self.record_error(
                    *it.seq()[j].0,
                    *it.seq()[j].1,
                ) is None,
        {
            let checked = self.validate_record(*record_id, record);
            if let Err(e) = checked {
                proof {
                    vstd::std_specs::hash::axiom_spec_hash_map_iter(&self.records);
                    let v = vstd::std_specs::hash::spec_hash_map_iter(&self.records).remaining();
                    let j = it.index() as int;
                    assert(m.contains_key(*v[j].0) && m[*v[j].0] == *v[j].1);
                    let u = v.unref();
                    self.lemma_first_fault_skip(u, j);
                    assert(u.skip(j)[0] == u[j]);
                }
                return Err(e);
            }
        }
        proof {
            let u = vstd::std_specs::hash::spec_hash_map_iter(&self.records).remaining().unref();
            self.lemma_first_fault_skip(u, u.len() as int);
            assert(u.skip(u.len() as int).len() == 0);
        }
        proof {
            vstd::std_specs::hash::axiom_spec_hash_map_iter(&self.records);
            let v = vstd::std_specs::hash::spec_hash_map_iter(&self.records).remaining();
            assert forall|id: i32| #[trigger] m.contains_key(id) implies self.record_error(
                id,
                m[id],
            ) is None by {
                assert(v.contains((&id, &m[id])));
                let j = choose|j: int| 0 <= j < v.len() && v[j] == (&id, &m[id]);
            }
        }
        Ok(())
    }
}

} // verus!
