use crate::bytes::{lemma_be_u16_roundtrip, lemma_be_u32_roundtrip, lemma_be_u64_roundtrip, get_u16_be, get_u32_be, get_u64_be, be_u16_at, be_u32_at, be_u64_at, push_u16_be, push_u32_be, push_u64_be, u16_be, u32_be, u64_be};
use crate::compress::{gzip_compress, gzip_compressed, gzip_decompress, gzip_inflated, zlib_compress, zlib_compressed, zlib_decompress, zlib_inflated};
use crate::text::{lossy_text, same_text, text_from_bytes_lossy, number_message};
use vstd::utf8::*;
use vstd::prelude::*;

verus! {

/// A value of the NBT format. Floating-point tags keep their IEEE-754 bit
/// patterns, which is all the format stores.
#[derive(Debug)]
pub enum NbtValue {
    Byte(i8),
    Short(i16),
    Int(i32),
    Long(i64),
    Float(u32),
    Double(u64),
    ByteArray(Vec<u8>),
    String(String),
    List(Vec<NbtValue>),
    Compound(NbtCompound),
    IntArray(Vec<i32>),
    LongArray(Vec<i64>),
}

/// A named NBT compound: its tags in order, names not necessarily unique.
#[derive(Debug)]
pub struct NbtCompound {
    pub name: String,
    pub tags: Vec<(String, NbtValue)>,
}

/// The mathematical value of an NBT tag.
pub enum NbtTag {
    Byte(i8),
    Short(i16),
    Int(i32),
    Long(i64),
    Float(u32),
    Double(u64),
    ByteArray(Seq<u8>),
    Text(Seq<char>),
    List(Seq<NbtTag>),
    Compound(CompoundModel),
    IntArray(Seq<i32>),
    LongArray(Seq<i64>),
}

/// The mathematical value of a compound: its name and its named tags.
pub struct CompoundModel {
    pub name: Seq<char>,
    pub tags: Seq<(Seq<char>, NbtTag)>,
}

pub open spec fn value_model(v: NbtValue) -> NbtTag
    decreases v,
{
    match v {
        NbtValue::Byte(b) => NbtTag::Byte(b),
        NbtValue::Short(s) => NbtTag::Short(s),
        NbtValue::Int(i) => NbtTag::Int(i),
        NbtValue::Long(l) => NbtTag::Long(l),
        NbtValue::Float(f) => NbtTag::Float(f),
        NbtValue::Double(d) => NbtTag::Double(d),
        NbtValue::ByteArray(a) => NbtTag::ByteArray(a@),
        NbtValue::String(s) => NbtTag::Text(s@),
        NbtValue::List(l) => NbtTag::List(values_model(l@)),
        NbtValue::Compound(c) => NbtTag::Compound(compound_model(c)),
        NbtValue::IntArray(a) => NbtTag::IntArray(a@),
        NbtValue::LongArray(a) => NbtTag::LongArray(a@),
    }
}

pub open spec fn values_model(s: Seq<NbtValue>) -> Seq<NbtTag>
    decreases s,
{
    if s.len() == 0 {
        Seq::empty()
    } else {
        values_model(s.drop_last()).push(value_model(s.last()))
    }
}

pub open spec fn compound_model(c: NbtCompound) -> CompoundModel
    decreases c,
{
    CompoundModel { name: c.name@, tags: tags_model(c.tags@) }
}

pub open spec fn tags_model(s: Seq<(String, NbtValue)>) -> Seq<(Seq<char>, NbtTag)>
    decreases s,
{
    if s.len() == 0 {
        Seq::empty()
    } else {
        tags_model(s.drop_last()).push((s.last().0@, value_model(s.last().1)))
    }
}


/// `values_model` keeps the length and maps each element.
pub proof fn lemma_values_model(s: Seq<NbtValue>)
    ensures
        values_model(s).len() == s.len(),
        forall|i: int| 0 <= i < s.len() ==> #[trigger] values_model(s)[i] == value_model(s[i]),
    decreases s.len(),
{
    if s.len() > 0 {
        lemma_values_model(s.drop_last());
    }
}

/// `tags_model` keeps the length and maps each named tag.
pub proof fn lemma_tags_model(s: Seq<(String, NbtValue)>)
    ensures
        tags_model(s).len() == s.len(),
        forall|i: int|
            0 <= i < s.len() ==> #[trigger] tags_model(s)[i] == (s[i].0@, value_model(s[i].1)),
    decreases s.len(),
{
    if s.len() > 0 {
        lemma_tags_model(s.drop_last());
    }
}

impl View for NbtValue {
    type V = NbtTag;

    open spec fn view(&self) -> NbtTag {
        value_model(*self)
    }
}

impl View for NbtCompound {
    type V = CompoundModel;

    open spec fn view(&self) -> CompoundModel {
        compound_model(*self)
    }
}

/// Index of the first tag named `name` at or after `i`, or -1.
pub open spec fn find_from(tags: Seq<(Seq<char>, NbtTag)>, name: Seq<char>, i: int) -> int
    decreases tags.len() - i,
{
    if i < 0 || i >= tags.len() {
        -1
    } else if tags[i].0 == name {
        i
    } else {
        find_from(tags, name, i + 1)
    }
}

/// Index of the first tag named `name`, or -1 when there is none.
pub open spec fn name_index(tags: Seq<(Seq<char>, NbtTag)>, name: Seq<char>) -> int {
    find_from(tags, name, 0)
}

/// The value of the first tag named `name`.
pub open spec fn lookup(tags: Seq<(Seq<char>, NbtTag)>, name: Seq<char>) -> Option<NbtTag> {
    let i = name_index(tags, name);
    if i >= 0 {
        Some(tags[i].1)
    } else {
        None
    }
}

/// `tags` without every tag named `name`, order kept.
pub open spec fn without_name(tags: Seq<(Seq<char>, NbtTag)>, name: Seq<char>) -> Seq<
    (Seq<char>, NbtTag),
>
    decreases tags.len(),
{
    if tags.len() == 0 {
        tags
    } else {
        let rest = without_name(tags.drop_last(), name);
        if tags.last().0 == name {
            rest
        } else {
            rest.push(tags.last())
        }
    }
}

proof fn lemma_find_from(tags: Seq<(Seq<char>, NbtTag)>, name: Seq<char>, i: int)
    requires
        0 <= i <= tags.len(),
        forall|j: int| 0 <= j < i ==> tags[j].0 != name,
    ensures
        find_from(tags, name, 0) == find_from(tags, name, i),
    decreases i,
{
    if i > 0 {
        lemma_find_from(tags, name, i - 1);
    }
}

proof fn lemma_find_from_range(tags: Seq<(Seq<char>, NbtTag)>, name: Seq<char>, i: int)
    ensures
        find_from(tags, name, i) == -1 || (i <= find_from(tags, name, i) < tags.len()
            && tags[find_from(tags, name, i)].0 == name),
    decreases tags.len() - i,
{
    if 0 <= i < tags.len() && tags[i].0 != name {
        lemma_find_from_range(tags, name, i + 1);
    }
}

/// The first tag named `name` is found, and no earlier tag has that name.
pub proof fn lemma_name_index(tags: Seq<(Seq<char>, NbtTag)>, name: Seq<char>)
    ensures
        name_index(tags, name) == -1 || (0 <= name_index(tags, name) < tags.len()
            && tags[name_index(tags, name)].0 == name),
        forall|j: int| 0 <= j < tags.len() && tags[j].0 == name ==> name_index(tags, name) != -1
            && name_index(tags, name) <= j,
{
    lemma_find_from_range(tags, name, 0);
    assert forall|j: int| 0 <= j < tags.len() && tags[j].0 == name implies name_index(tags, name)
        != -1 && name_index(tags, name) <= j by {
        lemma_first_before(tags, name, 0, j);
    }
}

proof fn lemma_first_before(tags: Seq<(Seq<char>, NbtTag)>, name: Seq<char>, i: int, j: int)
    requires
        0 <= i <= j < tags.len(),
        tags[j].0 == name,
    ensures
        find_from(tags, name, i) != -1 && find_from(tags, name, i) <= j,
    decreases j - i,
{
    if tags[i].0 != name {
        lemma_first_before(tags, name, i + 1, j);
    }
}

impl NbtValue {
    /// A copy of this value, tag for tag.
    pub fn deep_clone(&self) -> (r: NbtValue)
        ensures
            r@ == self@,
        decreases self,
    {
        match self {
            NbtValue::Byte(b) => NbtValue::Byte(*b),
            NbtValue::Short(x) => NbtValue::Short(*x),
            NbtValue::Int(x) => NbtValue::Int(*x),
            NbtValue::Long(x) => NbtValue::Long(*x),
            NbtValue::Float(x) => NbtValue::Float(*x),
            NbtValue::Double(x) => NbtValue::Double(*x),
            NbtValue::ByteArray(a) => {
                let c = a.clone();
                assert(c@ =~= a@);
                NbtValue::ByteArray(c)
            },
            NbtValue::String(t) => NbtValue::String(t.clone()),
            NbtValue::List(l) => NbtValue::List(clone_values(l)),
            NbtValue::Compound(c) => NbtValue::Compound(c.deep_clone()),
            NbtValue::IntArray(a) => {
                let c = a.clone();
                assert(c@ =~= a@);
                NbtValue::IntArray(c)
            },
            NbtValue::LongArray(a) => {
                let c = a.clone();
                assert(c@ =~= a@);
                NbtValue::LongArray(c)
            },
        }
    }
}

/// A copy of a list of values.
pub fn clone_values(v: &Vec<NbtValue>) -> (r: Vec<NbtValue>)
    ensures
        values_model(r@) == values_model(v@),
    decreases v,
{
    let mut r: Vec<NbtValue> = Vec::new();
    let mut i: usize = 0;
    while i < v.len()
        invariant
            i <= v@.len(),
            values_model(r@) == values_model(v@.take(i as int)),
        decreases v@.len() - i,
    {
        assert(decreases_to!(v => v@[i as int]));
        let x = v[i].deep_clone();
        let ghost old_r = r@;
        r.push(x);
        proof {
            assert(r@.drop_last() =~= old_r);
            assert(v@.take(i + 1).drop_last() =~= v@.take(i as int));
        }
        i += 1;
    }
    assert(v@.take(i as int) =~= v@);
    r
}

/// A copy of a list of named tags.
fn clone_tags(v: &Vec<(String, NbtValue)>) -> (r: Vec<(String, NbtValue)>)
    ensures
        tags_model(r@) == tags_model(v@),
    decreases v,
{
    let mut r: Vec<(String, NbtValue)> = Vec::new();
    let mut i: usize = 0;
    while i < v.len()
        invariant
            i <= v@.len(),
            tags_model(r@) == tags_model(v@.take(i as int)),
        decreases v@.len() - i,
    {
        assert(decreases_to!(v => v@[i as int].1));
        let x = (v[i].0.clone(), v[i].1.deep_clone());
        let ghost old_r = r@;
        r.push(x);
        proof {
            assert(r@.drop_last() =~= old_r);
            assert(v@.take(i + 1).drop_last() =~= v@.take(i as int));
        }
        i += 1;
    }
    assert(v@.take(i as int) =~= v@);
    r
}

impl NbtCompound {
    /// A copy of this compound, tag for tag.
    pub fn deep_clone(&self) -> (r: NbtCompound)
        ensures
            r@ == self@,
        decreases self,
    {
        assert(decreases_to!(self => self.tags));
        NbtCompound { name: self.name.clone(), tags: clone_tags(&self.tags) }
    }

    /// Removes every tag called `name`, keeping the others in order.
    pub fn remove(&mut self, name: &str)
        ensures
            final(self)@.name == old(self)@.name,
            final(self)@.tags == without_name(old(self)@.tags, name@),
    {
        let mut old_tags: Vec<(String, NbtValue)> = Vec::new();
        std::mem::swap(&mut old_tags, &mut self.tags);
        let mut kept: Vec<(String, NbtValue)> = Vec::new();
        let mut i: usize = 0;
        while i < old_tags.len()
            invariant
                i <= old_tags@.len(),
                tags_model(kept@) == without_name(tags_model(old_tags@).take(i as int), name@),
            decreases old_tags@.len() - i,
        {
            proof {
                lemma_tags_model(old_tags@);
            }
            let ghost m = tags_model(old_tags@);
            let ghost prev = kept@;
            if !same_text(old_tags[i].0.as_str(), name) {
                kept.push((old_tags[i].0.clone(), old_tags[i].1.deep_clone()));
                proof {
                    assert(kept@.drop_last() =~= prev);
                }
            }
            proof {
                assert(m.take(i + 1).drop_last() =~= m.take(i as int));
                assert(m.take(i + 1).last() == m[i as int]);
            }
            i += 1;
        }
        proof {
            lemma_tags_model(old_tags@);
            assert(tags_model(old_tags@).take(i as int) =~= tags_model(old_tags@));
        }
        self.tags = kept;
    }

    /// Sets the tag called `name` to `value`: earlier tags of that name go,
    /// the new one is appended last.
    pub fn insert(&mut self, name: &str, value: NbtValue)
        ensures
            final(self)@.name == old(self)@.name,
            final(self)@.tags == without_name(old(self)@.tags, name@).push((name@, value@)),
    {
        self.remove(name);
        let key = name.to_string();
        proof {
            vstd::string::to_string_from_display_ensures_for_str(name, key);
        }
        let ghost prev = self.tags@;
        self.tags.push((key, value));
        proof {
            assert(self.tags@.drop_last() =~= prev);
        }
    }

    /// An empty compound called `name`.
    pub fn new(name: &str) -> (r: NbtCompound)
        ensures
            r@.name == name@,
            r@.tags == Seq::<(Seq<char>, NbtTag)>::empty(),
    {
        let r = NbtCompound { name: name.to_string(), tags: Vec::new() };
        proof {
            vstd::string::to_string_from_display_ensures_for_str(name, r.name);
            assert(r.tags@ =~= Seq::<(String, NbtValue)>::empty());
        }
        r
    }

    /// Position of the first tag called `name`.
    pub(crate) fn position(&self, name: &str) -> (r: Option<usize>)
        ensures
            r is None ==> name_index(self@.tags, name@) == -1,
            r matches Some(i) ==> i == name_index(self@.tags, name@) && i < self.tags@.len(),
    {
        proof {
            lemma_tags_model(self.tags@);
        }
        let mut i: usize = 0;
        while i < self.tags.len()
            invariant
                i <= self.tags@.len(),
                self@.tags.len() == self.tags@.len(),
                self@.tags == tags_model(self.tags@),
                forall|j: int| 0 <= j < i ==> self@.tags[j].0 != name@,
            decreases self.tags@.len() - i,
        {
            proof {
                lemma_tags_model(self.tags@);
            }
            assert(self@.tags[i as int] == (self.tags@[i as int].0@, value_model(
                self.tags@[i as int].1,
            )));
            if same_text(self.tags[i].0.as_str(), name) {
                proof {
                    lemma_find_from(self@.tags, name@, i as int);
                }
                return Some(i);
            }
            i += 1;
        }
        proof {
            lemma_find_from(self@.tags, name@, i as int);
        }
        None
    }

    /// The value of the first tag called `name`.
    pub fn get(&self, name: &str) -> (r: Option<&NbtValue>)
        ensures
            r is None <==> name_index(self@.tags, name@) == -1,
            r matches Some(v) ==> *v == self.tags@[name_index(self@.tags, name@)].1,
            r matches Some(v) ==> lookup(self@.tags, name@) == Some(v@),
    {
        proof {
            lemma_tags_model(self.tags@);
        }
        match self.position(name) {
            Some(i) => Some(&self.tags[i].1),
            None => None,
        }
    }

    /// Mutable access to the value of the first tag called `name`.
    pub fn get_mut(&mut self, name: &str) -> (r: Option<&mut NbtValue>)
        ensures
            r is None <==> name_index(old(self)@.tags, name@) == -1,
            r is None ==> *final(self) == *old(self),
            r matches Some(v) ==> *v == old(self).tags@[name_index(old(self)@.tags, name@)].1,
            r matches Some(v) ==> final(self).name == old(self).name && final(self).tags@
                == old(self).tags@.update(
                name_index(old(self)@.tags, name@),
                (old(self).tags@[name_index(old(self)@.tags, name@)].0, *final(v)),
            ),
    {
        match self.position(name) {
            Some(i) => Some(&mut self.tags[i].1),
            None => None,
        }
    }

    /// Mutable access to the compound called `name`, if the first tag of
    /// that name is one.
    pub fn compound_mut(&mut self, name: &str) -> (r: Option<&mut NbtCompound>)
        ensures
            r is None <==> !(lookup(old(self)@.tags, name@) matches Some(NbtTag::Compound(_))),
            r is None ==> *final(self) == *old(self),
            r matches Some(c) ==> old(self).tags@[name_index(old(self)@.tags, name@)].1
                == NbtValue::Compound(*c),
            r matches Some(c) ==> final(self).name == old(self).name && final(self).tags@
                == old(self).tags@.update(
                name_index(old(self)@.tags, name@),
                (
                    old(self).tags@[name_index(old(self)@.tags, name@)].0,
                    NbtValue::Compound(*final(c)),
                ),
            ),
    {
        proof {
            lemma_tags_model(self.tags@);
            lemma_name_index(self@.tags, name@);
        }
        match self.get(name) {
            Some(NbtValue::Compound(_)) => {},
            _ => {
                return None;
            },
        }
        match self.get_mut(name) {
            Some(NbtValue::Compound(c)) => Some(c),
            _ => None,
        }
    }

    /// Whether a tag called `name` exists.
    pub fn contains(&self, name: &str) -> (r: bool)
        ensures
            r == (name_index(self@.tags, name@) != -1),
    {
        self.position(name).is_some()
    }

    /// The Byte tag called `name`, if the first tag of that name is one.
    pub fn byte(&self, name: &str) -> (r: Option<i8>)
        ensures
            r == (match lookup(self@.tags, name@) {
                Some(NbtTag::Byte(x)) => Some(x),
                _ => None::<i8>,
            }),
    {
        match self.get(name) {
            Some(NbtValue::Byte(x)) => Some(*x),
            _ => None,
        }
    }

    /// The Short tag called `name`, if the first tag of that name is one.
    pub fn short(&self, name: &str) -> (r: Option<i16>)
        ensures
            r == (match lookup(self@.tags, name@) {
                Some(NbtTag::Short(x)) => Some(x),
                _ => None::<i16>,
            }),
    {
        match self.get(name) {
            Some(NbtValue::Short(x)) => Some(*x),
            _ => None,
        }
    }

    /// The Int tag called `name`, if the first tag of that name is one.
    pub fn int_value(&self, name: &str) -> (r: Option<i32>)
        ensures
            r == (match lookup(self@.tags, name@) {
                Some(NbtTag::Int(x)) => Some(x),
                _ => None::<i32>,
            }),
    {
        match self.get(name) {
            Some(NbtValue::Int(x)) => Some(*x),
            _ => None,
        }
    }

    /// The Long tag called `name`, if the first tag of that name is one.
    pub fn long(&self, name: &str) -> (r: Option<i64>)
        ensures
            r == (match lookup(self@.tags, name@) {
                Some(NbtTag::Long(x)) => Some(x),
                _ => None::<i64>,
            }),
    {
        match self.get(name) {
            Some(NbtValue::Long(x)) => Some(*x),
            _ => None,
        }
    }

    /// The Float tag called `name` (as its bit pattern), if the first tag of that name is one.
    pub fn float(&self, name: &str) -> (r: Option<u32>)
        ensures
            r == (match lookup(self@.tags, name@) {
                Some(NbtTag::Float(x)) => Some(x),
                _ => None::<u32>,
            }),
    {
        match self.get(name) {
            Some(NbtValue::Float(x)) => Some(*x),
            _ => None,
        }
    }

    /// The Double tag called `name` (as its bit pattern), if the first tag of that name is one.
    pub fn double(&self, name: &str) -> (r: Option<u64>)
        ensures
            r == (match lookup(self@.tags, name@) {
                Some(NbtTag::Double(x)) => Some(x),
                _ => None::<u64>,
            }),
    {
        match self.get(name) {
            Some(NbtValue::Double(x)) => Some(*x),
            _ => None,
        }
    }

    /// The String tag called `name`, if the first tag of that name is one.
    pub fn string(&self, name: &str) -> (r: Option<&str>)
        ensures
            r is None <==> !(lookup(self@.tags, name@) matches Some(NbtTag::Text(_))),
            r matches Some(x) ==> lookup(self@.tags, name@) == Some(NbtTag::Text(x@)),
    {
        match self.get(name) {
            Some(NbtValue::String(s)) => Some(s.as_str()),
            _ => None,
        }
    }

    /// The ByteArray tag called `name`, if the first tag of that name is one.
    pub fn byte_array(&self, name: &str) -> (r: Option<&[u8]>)
        ensures
            r is None <==> !(lookup(self@.tags, name@) matches Some(NbtTag::ByteArray(_))),
            r matches Some(x) ==> lookup(self@.tags, name@) == Some(NbtTag::ByteArray(x@)),
    {
        match self.get(name) {
            Some(NbtValue::ByteArray(s)) => Some(s.as_slice()),
            _ => None,
        }
    }

    /// The IntArray tag called `name`, if the first tag of that name is one.
    pub fn int_array(&self, name: &str) -> (r: Option<&[i32]>)
        ensures
            r is None <==> !(lookup(self@.tags, name@) matches Some(NbtTag::IntArray(_))),
            r matches Some(x) ==> lookup(self@.tags, name@) == Some(NbtTag::IntArray(x@)),
    {
        match self.get(name) {
            Some(NbtValue::IntArray(s)) => Some(s.as_slice()),
            _ => None,
        }
    }

    /// The LongArray tag called `name`, if the first tag of that name is one.
    pub fn long_array(&self, name: &str) -> (r: Option<&[i64]>)
        ensures
            r is None <==> !(lookup(self@.tags, name@) matches Some(NbtTag::LongArray(_))),
            r matches Some(x) ==> lookup(self@.tags, name@) == Some(NbtTag::LongArray(x@)),
    {
        match self.get(name) {
            Some(NbtValue::LongArray(s)) => Some(s.as_slice()),
            _ => None,
        }
    }

    /// The List tag called `name`, if the first tag of that name is one.
    pub fn list(&self, name: &str) -> (r: Option<&[NbtValue]>)
        ensures
            r is None <==> !(lookup(self@.tags, name@) matches Some(NbtTag::List(_))),
            r matches Some(x) ==> lookup(self@.tags, name@) == Some(NbtTag::List(values_model(x@))),
    {
        match self.get(name) {
            Some(NbtValue::List(s)) => Some(s.as_slice()),
            _ => None,
        }
    }

    /// The Compound tag called `name`, if the first tag of that name is one.
    pub fn compound(&self, name: &str) -> (r: Option<&NbtCompound>)
        ensures
            r is None <==> !(lookup(self@.tags, name@) matches Some(NbtTag::Compound(_))),
            r matches Some(x) ==> lookup(self@.tags, name@) == Some(NbtTag::Compound(x@)),
    {
        match self.get(name) {
            Some(NbtValue::Compound(s)) => Some(s),
            _ => None,
        }
    }
}


// ---------------------------------------------------------------------
// The binary NBT encoding.
// ---------------------------------------------------------------------

/// The type id that the format gives a tag.
pub open spec fn tag_id(t: NbtTag) -> u8 {
    match t {
        NbtTag::Byte(_) => 1,
        NbtTag::Short(_) => 2,
        NbtTag::Int(_) => 3,
        NbtTag::Long(_) => 4,
        NbtTag::Float(_) => 5,
        NbtTag::Double(_) => 6,
        NbtTag::ByteArray(_) => 7,
        NbtTag::Text(_) => 8,
        NbtTag::List(_) => 9,
        NbtTag::Compound(_) => 10,
        NbtTag::IntArray(_) => 11,
        NbtTag::LongArray(_) => 12,
    }
}

/// The element type id written for a list: that of its first element, or 0.
pub open spec fn list_elem_id(l: Seq<NbtTag>) -> u8 {
    if l.len() == 0 {
        0
    } else {
        tag_id(l[0])
    }
}

/// A string as the format stores it: a 16-bit big-endian byte length, then
/// its UTF-8 bytes.
pub open spec fn write_text(t: Seq<char>) -> Seq<u8> {
    u16_be(encode_utf8(t).len() as u16) + encode_utf8(t)
}

pub open spec fn ints_be(a: Seq<i32>) -> Seq<u8>
    decreases a.len(),
{
    if a.len() == 0 {
        Seq::empty()
    } else {
        ints_be(a.drop_last()) + u32_be(a.last() as u32)
    }
}

pub open spec fn longs_be(a: Seq<i64>) -> Seq<u8>
    decreases a.len(),
{
    if a.len() == 0 {
        Seq::empty()
    } else {
        longs_be(a.drop_last()) + u64_be(a.last() as u64)
    }
}

/// The payload bytes of a tag (without its type id and name).
pub open spec fn write_tag_value(t: NbtTag) -> Seq<u8>
    decreases t,
{
    match t {
        NbtTag::Byte(b) => seq![b as u8],
        NbtTag::Short(x) => u16_be(x as u16),
        NbtTag::Int(x) => u32_be(x as u32),
        NbtTag::Long(x) => u64_be(x as u64),
        NbtTag::Float(f) => u32_be(f),
        NbtTag::Double(d) => u64_be(d),
        NbtTag::ByteArray(a) => u32_be(a.len() as u32) + a,
        NbtTag::Text(x) => write_text(x),
        NbtTag::List(l) => seq![list_elem_id(l)] + u32_be(l.len() as u32) + write_values(l),
        NbtTag::Compound(c) => write_tags(c.tags) + seq![0u8],
        NbtTag::IntArray(a) => u32_be(a.len() as u32) + ints_be(a),
        NbtTag::LongArray(a) => u32_be(a.len() as u32) + longs_be(a),
    }
}

/// The payloads of list elements, one after another.
pub open spec fn write_values(l: Seq<NbtTag>) -> Seq<u8>
    decreases l,
{
    if l.len() == 0 {
        Seq::empty()
    } else {
        write_tag_value(l[0]) + write_values(l.drop_first())
    }
}

/// One named tag as a compound stores it: type id, name, payload.
pub open spec fn write_named(t: (Seq<char>, NbtTag)) -> Seq<u8>
    decreases t,
{
    seq![tag_id(t.1)] + write_text(t.0) + write_tag_value(t.1)
}

/// Named tags as a compound stores them: type id, name, payload, each.
pub open spec fn write_tags(ts: Seq<(Seq<char>, NbtTag)>) -> Seq<u8>
    decreases ts,
{
    if ts.len() == 0 {
        Seq::empty()
    } else {
        write_named(ts[0]) + write_tags(ts.drop_first())
    }
}

/// A whole NBT document whose root is the compound `c`.
pub open spec fn spec_write_nbt(c: CompoundModel) -> Seq<u8> {
    seq![10u8] + write_text(c.name) + write_tags(c.tags) + seq![0u8]
}

proof fn lemma_write_values_push(l: Seq<NbtTag>, x: NbtTag)
    ensures
        write_values(l.push(x)) == write_values(l) + write_tag_value(x),
    decreases l.len(),
{
    if l.len() == 0 {
        assert(l.push(x).drop_first() =~= Seq::<NbtTag>::empty());
        assert(l.push(x)[0] == x);
        assert(write_values(l.push(x).drop_first()) == Seq::<u8>::empty());
        assert(write_values(l) == Seq::<u8>::empty());
        assert(write_values(l.push(x)) =~= write_values(l) + write_tag_value(x));
    } else {
        lemma_write_values_push(l.drop_first(), x);
        assert(l.push(x).drop_first() =~= l.drop_first().push(x));
        assert(l.push(x)[0] == l[0]);
        assert(write_values(l.push(x)) =~= write_values(l) + write_tag_value(x));
    }
}

proof fn lemma_write_tags_push(l: Seq<(Seq<char>, NbtTag)>, x: (Seq<char>, NbtTag))
    ensures
        write_tags(l.push(x)) == write_tags(l) + write_named(x),
    decreases l.len(),
{
    if l.len() == 0 {
        assert(l.push(x).drop_first() =~= Seq::<(Seq<char>, NbtTag)>::empty());
        assert(l.push(x)[0] == x);
        assert(write_tags(l.push(x).drop_first()) == Seq::<u8>::empty());
        assert(write_tags(l) == Seq::<u8>::empty());
        assert(write_tags(l.push(x)) =~= write_tags(l) + write_named(x));
    } else {
        lemma_write_tags_push(l.drop_first(), x);
        assert(l.push(x).drop_first() =~= l.drop_first().push(x));
        assert(l.push(x)[0] == l[0]);
        assert(write_tags(l.push(x)) =~= write_tags(l) + write_named(x));
    }
}

/// The type id of a value.
pub fn tag_type_id(v: &NbtValue) -> (r: u8)
    ensures
        r == tag_id(v@),
{
    match v {
        NbtValue::Byte(_) => 1,
        NbtValue::Short(_) => 2,
        NbtValue::Int(_) => 3,
        NbtValue::Long(_) => 4,
        NbtValue::Float(_) => 5,
        NbtValue::Double(_) => 6,
        NbtValue::ByteArray(_) => 7,
        NbtValue::String(_) => 8,
        NbtValue::List(_) => 9,
        NbtValue::Compound(_) => 10,
        NbtValue::IntArray(_) => 11,
        NbtValue::LongArray(_) => 12,
    }
}

fn write_string(out: &mut Vec<u8>, s: &str)
    ensures
        final(out)@ == old(out)@ + write_text(s@),
{
    let bytes = s.as_bytes();
    push_u16_be(out, bytes.len() as u16);
    out.extend_from_slice(bytes);
    assert(out@ =~= old(out)@ + write_text(s@));
}

fn write_ints(out: &mut Vec<u8>, a: &Vec<i32>)
    ensures
        final(out)@ == old(out)@ + ints_be(a@),
{
    let mut i: usize = 0;
    while i < a.len()
        invariant
            i <= a@.len(),
            out@ == old(out)@ + ints_be(a@.take(i as int)),
        decreases a@.len() - i,
    {
        push_u32_be(out, a[i] as u32);
        proof {
            assert(a@.take(i + 1).drop_last() =~= a@.take(i as int));
            assert(out@ =~= old(out)@ + ints_be(a@.take(i + 1)));
        }
        i += 1;
    }
    assert(a@.take(i as int) =~= a@);
}

fn write_longs(out: &mut Vec<u8>, a: &Vec<i64>)
    ensures
        final(out)@ == old(out)@ + longs_be(a@),
{
    let mut i: usize = 0;
    while i < a.len()
        invariant
            i <= a@.len(),
            out@ == old(out)@ + longs_be(a@.take(i as int)),
        decreases a@.len() - i,
    {
        push_u64_be(out, a[i] as u64);
        proof {
            assert(a@.take(i + 1).drop_last() =~= a@.take(i as int));
            assert(out@ =~= old(out)@ + longs_be(a@.take(i + 1)));
        }
        i += 1;
    }
    assert(a@.take(i as int) =~= a@);
}

fn write_value(out: &mut Vec<u8>, value: &NbtValue)
    ensures
        final(out)@ == old(out)@ + write_tag_value(value@),
    decreases value,
{
    match value {
        NbtValue::Byte(b) => {
            out.push(#[verifier::truncate] (*b as u8));
            assert(out@ =~= old(out)@ + write_tag_value(value@));
        },
        NbtValue::Short(x) => push_u16_be(out, #[verifier::truncate] (*x as u16)),
        NbtValue::Int(x) => push_u32_be(out, #[verifier::truncate] (*x as u32)),
        NbtValue::Long(x) => push_u64_be(out, #[verifier::truncate] (*x as u64)),
        NbtValue::Float(f) => push_u32_be(out, *f),
        NbtValue::Double(d) => push_u64_be(out, *d),
        NbtValue::ByteArray(arr) => {
            push_u32_be(out, arr.len() as u32);
            out.extend_from_slice(arr.as_slice());
            assert(out@ =~= old(out)@ + write_tag_value(value@));
        },
        NbtValue::String(t) => write_string(out, t.as_str()),
        NbtValue::List(list) => {
            proof {
                lemma_values_model(list@);
            }
            let elem_type: u8 = if list.len() == 0 {
                0
            } else {
                tag_type_id(&list[0])
            };
            out.push(elem_type);
            push_u32_be(out, list.len() as u32);
            write_list_items(out, list);
            assert(out@ =~= old(out)@ + write_tag_value(value@));
        },
        NbtValue::Compound(c) => {
            write_compound_payload(out, c);
            out.push(0);
            assert(out@ =~= old(out)@ + write_tag_value(value@));
        },
        NbtValue::IntArray(arr) => {
            push_u32_be(out, arr.len() as u32);
            write_ints(out, arr);
            assert(out@ =~= old(out)@ + write_tag_value(value@));
        },
        NbtValue::LongArray(arr) => {
            push_u32_be(out, arr.len() as u32);
            write_longs(out, arr);
            assert(out@ =~= old(out)@ + write_tag_value(value@));
        },
    }
}

fn write_list_items(out: &mut Vec<u8>, list: &Vec<NbtValue>)
    ensures
        final(out)@ == old(out)@ + write_values(values_model(list@)),
    decreases list,
{
    let mut i: usize = 0;
    while i < list.len()
        invariant
            i <= list@.len(),
            out@ == old(out)@ + write_values(values_model(list@.take(i as int))),
        decreases list@.len() - i,
    {
        assert(decreases_to!(list => list@[i as int]));
        write_value(out, &list[i]);
        proof {
            assert(list@.take(i + 1).drop_last() =~= list@.take(i as int));
            assert(values_model(list@.take(i + 1)) == values_model(list@.take(i as int)).push(
                value_model(list@[i as int]),
            ));
            lemma_write_values_push(
                values_model(list@.take(i as int)),
                value_model(list@[i as int]),
            );
            assert(out@ =~= old(out)@ + write_values(values_model(list@.take(i + 1))));
        }
        i += 1;
    }
    assert(list@.take(i as int) =~= list@);
}

fn write_compound_payload(out: &mut Vec<u8>, compound: &NbtCompound)
    ensures
        final(out)@ == old(out)@ + write_tags(compound@.tags),
    decreases compound,
{
    let mut i: usize = 0;
    while i < compound.tags.len()
        invariant
            i <= compound.tags@.len(),
            out@ == old(out)@ + write_tags(tags_model(compound.tags@.take(i as int))),
        decreases compound.tags@.len() - i,
    {
        assert(decreases_to!(compound => compound.tags@[i as int].1));
        let ghost before = out@;
        out.push(tag_type_id(&compound.tags[i].1));
        write_string(out, compound.tags[i].0.as_str());
        write_value(out, &compound.tags[i].1);
        proof {
            let t = compound.tags@.take(i + 1);
            assert(t.drop_last() =~= compound.tags@.take(i as int));
            let x = (compound.tags@[i as int].0@, value_model(compound.tags@[i as int].1));
            assert(tags_model(t) == tags_model(compound.tags@.take(i as int)).push(x));
            lemma_write_tags_push(tags_model(compound.tags@.take(i as int)), x);
            assert(out@ =~= old(out)@ + write_tags(tags_model(compound.tags@.take(i + 1))));
        }
        i += 1;
    }
    assert(compound.tags@.take(i as int) =~= compound.tags@);
}

/// Encodes `compound` as an NBT document: the compound type id, its name,
/// its tags, and the end tag.
pub fn write_nbt(compound: &NbtCompound) -> (out: Vec<u8>)
    ensures
        out@ == spec_write_nbt(compound@),
{
    let mut out: Vec<u8> = Vec::new();
    out.push(10);
    write_string(&mut out, compound.name.as_str());
    write_compound_payload(&mut out, compound);
    out.push(0);
    assert(out@ =~= spec_write_nbt(compound@));
    out
}


// ---------------------------------------------------------------------
// Decoding.
// ---------------------------------------------------------------------

/// The characters that a string payload stands for: its UTF-8 decoding, or
/// what lossy decoding makes of invalid bytes.
pub open spec fn text_of(b: Seq<u8>) -> Seq<char> {
    if valid_utf8(b) {
        decode_utf8(b)
    } else {
        lossy_text(b)
    }
}

/// A string at `pos`: its characters and the position after it.
pub open spec fn parse_text(d: Seq<u8>, pos: int) -> Option<(Seq<char>, int)> {
    if pos < 0 || pos + 2 > d.len() {
        None
    } else {
        let len = (be_u16_at(d, pos) as i16) as int;
        if len < 0 || pos + 2 + len > d.len() {
            None
        } else {
            Some((text_of(d.subrange(pos + 2, pos + 2 + len)), pos + 2 + len))
        }
    }
}

/// A length field at `pos`, when it is not negative.
pub open spec fn length_at(d: Seq<u8>, pos: int) -> int {
    (be_u32_at(d, pos) as i32) as int
}

/// The payload of a tag of type `tag` at `pos`: the value and the position
/// after it.
pub open spec fn parse_value(d: Seq<u8>, pos: int, tag: u8) -> Option<(NbtTag, int)>
    decreases d.len() - pos, 1int, 0int,
{
    if pos < 0 || pos > d.len() {
        None
    } else if tag == 1 {
        if pos + 1 > d.len() {
            None
        } else {
            Some((NbtTag::Byte(d[pos] as i8), pos + 1))
        }
    } else if tag == 2 {
        if pos + 2 > d.len() {
            None
        } else {
            Some((NbtTag::Short(be_u16_at(d, pos) as i16), pos + 2))
        }
    } else if tag == 3 || tag == 5 {
        if pos + 4 > d.len() {
            None
        } else if tag == 3 {
            Some((NbtTag::Int(be_u32_at(d, pos) as i32), pos + 4))
        } else {
            Some((NbtTag::Float(be_u32_at(d, pos)), pos + 4))
        }
    } else if tag == 4 || tag == 6 {
        if pos + 8 > d.len() {
            None
        } else if tag == 4 {
            Some((NbtTag::Long(be_u64_at(d, pos) as i64), pos + 8))
        } else {
            Some((NbtTag::Double(be_u64_at(d, pos)), pos + 8))
        }
    } else if tag == 7 {
        if pos + 4 > d.len() {
            None
        } else {
            let len = length_at(d, pos);
            if len < 0 || pos + 4 + len > d.len() {
                None
            } else {
                Some((NbtTag::ByteArray(d.subrange(pos + 4, pos + 4 + len)), pos + 4 + len))
            }
        }
    } else if tag == 8 {
        match parse_text(d, pos) {
            Some((t, p)) => Some((NbtTag::Text(t), p)),
            None => None,
        }
    } else if tag == 9 {
        if pos + 5 > d.len() {
            None
        } else {
            let count = length_at(d, pos + 1);
            if count < 0 {
                None
            } else {
                match parse_list(d, pos + 5, d[pos], count) {
                    Some((l, p)) => Some((NbtTag::List(l), p)),
                    None => None,
                }
            }
        }
    } else if tag == 10 {
        match parse_compound(d, pos) {
            Some((ts, p)) => Some(
                (NbtTag::Compound(CompoundModel { name: Seq::empty(), tags: ts }), p),
            ),
            None => None,
        }
    } else if tag == 11 {
        if pos + 4 > d.len() {
            None
        } else {
            let len = length_at(d, pos);
            if len < 0 || pos + 4 + 4 * len > d.len() {
                None
            } else {
                Some(
                    (
                        NbtTag::IntArray(
                            Seq::new(len as nat, |i: int| be_u32_at(d, pos + 4 + 4 * i) as i32),
                        ),
                        pos + 4 + 4 * len,
                    ),
                )
            }
        }
    } else if tag == 12 {
        if pos + 4 > d.len() {
            None
        } else {
            let len = length_at(d, pos);
            if len < 0 || pos + 4 + 8 * len > d.len() {
                None
            } else {
                Some(
                    (
                        NbtTag::LongArray(
                            Seq::new(len as nat, |i: int| be_u64_at(d, pos + 4 + 8 * i) as i64),
                        ),
                        pos + 4 + 8 * len,
                    ),
                )
            }
        }
    } else {
        None
    }
}

/// `n` payloads of type `elem` one after another from `pos`.
pub open spec fn parse_list(d: Seq<u8>, pos: int, elem: u8, n: int) -> Option<(Seq<NbtTag>, int)>
    decreases d.len() - pos, 2int, n,
{
    if pos < 0 || pos > d.len() || n < 0 {
        None
    } else if n == 0 {
        Some((Seq::empty(), pos))
    } else {
        match parse_value(d, pos, elem) {
            Some((v, p1)) => if p1 <= pos || p1 > d.len() {
                None
            } else {
                match parse_list(d, p1, elem, n - 1) {
                    Some((vs, p2)) => Some((seq![v] + vs, p2)),
                    None => None,
                }
            },
            None => None,
        }
    }
}

/// Named tags from `pos` up to and including the end tag.
pub open spec fn parse_compound(d: Seq<u8>, pos: int) -> Option<(Seq<(Seq<char>, NbtTag)>, int)>
    decreases d.len() - pos, 0int, 0int,
{
    if pos < 0 || pos >= d.len() {
        None
    } else if d[pos] == 0 {
        Some((Seq::empty(), pos + 1))
    } else {
        match parse_text(d, pos + 1) {
            Some((name, p1)) => match parse_value(d, p1, d[pos]) {
                Some((v, p2)) => if p2 <= pos || p2 > d.len() {
                    None
                } else {
                    match parse_compound(d, p2) {
                        Some((rest, p3)) => Some((seq![(name, v)] + rest, p3)),
                        None => None,
                    }
                },
                None => None,
            },
            None => None,
        }
    }
}

/// The compound that an NBT document holds at its root.
pub open spec fn spec_read_nbt(d: Seq<u8>) -> Option<CompoundModel> {
    if d.len() == 0 || d[0] != 10 {
        None
    } else {
        match parse_text(d, 1) {
            Some((name, p1)) => match parse_compound(d, p1) {
                Some((tags, _)) => Some(CompoundModel { name, tags }),
                None => None,
            },
            None => None,
        }
    }
}

/// Every successful parse moves forward and stays within the data.
pub proof fn lemma_parse_progress(d: Seq<u8>, pos: int, tag: u8)
    ensures
        parse_value(d, pos, tag) matches Some((_, p)) ==> pos < p <= d.len(),
        parse_compound(d, pos) matches Some((_, p)) ==> pos < p <= d.len(),
    decreases d.len() - pos, 1int, 0int,
{
    if 0 <= pos <= d.len() {
        lemma_compound_progress(d, pos);
        if tag == 9 && pos + 5 <= d.len() {
            lemma_list_progress(d, pos + 5, d[pos], length_at(d, pos + 1));
        }
    }
}

proof fn lemma_compound_progress(d: Seq<u8>, pos: int)
    ensures
        parse_compound(d, pos) matches Some((_, p)) ==> pos < p <= d.len(),
    decreases d.len() - pos, 0int, 0int,
{
    if 0 <= pos < d.len() && d[pos] != 0 {
        if let Some((name, p1)) = parse_text(d, pos + 1) {
            if let Some((v, p2)) = parse_value(d, p1, d[pos]) {
                if pos < p2 <= d.len() {
                    lemma_compound_progress(d, p2);
                }
            }
        }
    }
}

proof fn lemma_list_progress(d: Seq<u8>, pos: int, elem: u8, n: int)
    ensures
        parse_list(d, pos, elem, n) matches Some((_, p)) ==> pos <= p <= d.len(),
    decreases d.len() - pos, 2int, n,
{
    if 0 <= pos <= d.len() && n > 0 {
        if let Some((v, p1)) = parse_value(d, pos, elem) {
            if pos < p1 <= d.len() {
                lemma_list_progress(d, p1, elem, n - 1);
            }
        }
    }
}


fn read_be_i16(data: &[u8], off: usize) -> (r: i16)
    requires
        off + 2 <= data@.len(),
    ensures
        r == be_u16_at(data@, off as int) as i16,
{
    #[verifier::truncate]
    (get_u16_be(data, off) as i16)
}

fn read_be_i32(data: &[u8], off: usize) -> (r: i32)
    requires
        off + 4 <= data@.len(),
    ensures
        r == be_u32_at(data@, off as int) as i32,
{
    #[verifier::truncate]
    (get_u32_be(data, off) as i32)
}

fn read_be_i64(data: &[u8], off: usize) -> (r: i64)
    requires
        off + 8 <= data@.len(),
    ensures
        r == be_u64_at(data@, off as int) as i64,
{
    #[verifier::truncate]
    (get_u64_be(data, off) as i64)
}

fn read_string(data: &[u8], off: usize) -> (r: Result<(String, usize), String>)
    ensures
        match parse_text(data@, off as int) {
            Some((t, p)) => r matches Ok((s, q)) && s@ == t && q == p,
            None => r is Err,
        },
{
    if off > data.len() || data.len() - off < 2 {
        return Err("string extends past end of data".to_string());
    }
    let len = read_be_i16(data, off);
    let start = off + 2;
    if len < 0 || len as usize > data.len() - start {
        return Err("string extends past end of data".to_string());
    }
    let end = start + len as usize;
    let bytes = &data[start..end];
    let s = text_from_bytes_lossy(bytes);
    assert(bytes@ == data@.subrange(start as int, end as int));
    Ok((s, end))
}

fn read_value(data: &[u8], pos: usize, tag_type: u8) -> (r: Result<(NbtValue, usize), String>)
    ensures
        match parse_value(data@, pos as int, tag_type) {
            Some((t, p)) => r matches Ok((v, q)) && v@ == t && q == p,
            None => r is Err,
        },
    decreases data@.len() - pos, 1int, 0int,
{
    let n = data.len();
    if pos > n {
        return Err("unexpected end of data".to_string());
    }
    let avail = n - pos;
    if tag_type == 1 {
        if avail < 1 {
            return Err("unexpected end of data".to_string());
        }
        Ok((NbtValue::Byte(#[verifier::truncate] (data[pos] as i8)), pos + 1))
    } else if tag_type == 2 {
        if avail < 2 {
            return Err("unexpected end of data".to_string());
        }
        Ok((NbtValue::Short(read_be_i16(data, pos)), pos + 2))
    } else if tag_type == 3 || tag_type == 5 {
        if avail < 4 {
            return Err("unexpected end of data".to_string());
        }
        if tag_type == 3 {
            Ok((NbtValue::Int(read_be_i32(data, pos)), pos + 4))
        } else {
            Ok((NbtValue::Float(get_u32_be(data, pos)), pos + 4))
        }
    } else if tag_type == 4 || tag_type == 6 {
        if avail < 8 {
            return Err("unexpected end of data".to_string());
        }
        if tag_type == 4 {
            Ok((NbtValue::Long(read_be_i64(data, pos)), pos + 8))
        } else {
            Ok((NbtValue::Double(get_u64_be(data, pos)), pos + 8))
        }
    } else if tag_type == 7 {
        if avail < 4 {
            return Err("byte array extends past end".to_string());
        }
        let len = read_be_i32(data, pos);
        let start = pos + 4;
        if len < 0 || len as usize > n - start {
            return Err("byte array extends past end".to_string());
        }
        let end = start + len as usize;
        let mut arr: Vec<u8> = Vec::new();
        arr.extend_from_slice(&data[start..end]);
        assert(arr@ =~= data@.subrange(start as int, end as int));
        Ok((NbtValue::ByteArray(arr), end))
    } else if tag_type == 8 {
        match read_string(data, pos) {
            Ok((s, p)) => Ok((NbtValue::String(s), p)),
            Err(e) => Err(e),
        }
    } else if tag_type == 9 {
        if avail < 5 {
            return Err("list extends past end".to_string());
        }
        let elem_type = data[pos];
        let count = read_be_i32(data, pos + 1);
        if count < 0 {
            return Err("list extends past end".to_string());
        }
        let count = count as usize;
        let ghost d = data@;
        assert(count as int == length_at(d, pos + 1));
        let ghost first = pos + 5;
        let mut list: Vec<NbtValue> = Vec::new();
        let mut list_pos = pos + 5;
        let mut k: usize = 0;
        while k < count
            invariant
                d == data@,
                first == pos + 5,
                tag_type == 9,
                pos + 5 <= d.len(),
                count as int == length_at(d, pos + 1),
                elem_type == d[pos as int],
                first <= list_pos <= d.len(),
                k <= count,
                count <= i32::MAX,
                list@.len() == k,
                parse_list(d, first as int, elem_type, count as int) == match parse_list(
                    d,
                    list_pos as int,
                    elem_type,
                    count - k,
                ) {
                    Some((rest, e)) => Some((values_model(list@) + rest, e)),
                    None => None,
                },
            decreases count - k,
        {
            proof {
                lemma_parse_progress(d, list_pos as int, elem_type);
            }
            match read_value(data, list_pos, elem_type) {
                Ok((v, p)) => {
                    let ghost prev = list@;
                    proof {
                        lemma_list_progress(d, p as int, elem_type, count - k - 1);
                        assert(values_model(prev.push(v)) == values_model(prev).push(v@)) by {
                            assert(prev.push(v).drop_last() =~= prev);
                        }
                        match parse_list(d, p as int, elem_type, count - k - 1) {
                            Some((rest, e)) => {
                                assert(values_model(prev) + (seq![v@] + rest) =~= values_model(
                                    prev,
                                ).push(v@) + rest);
                            },
                            None => {},
                        }
                    }
                    list.push(v);
                    list_pos = p;
                    k += 1;
                },
                Err(e) => {
                    assert(parse_list(d, list_pos as int, elem_type, count - k) is None);
                    assert(parse_list(d, first as int, elem_type, count as int) is None);
                    assert(parse_value(d, pos as int, tag_type) is None);
                    return Err(e);
                },
            }
        }
        proof {
            assert(parse_list(d, list_pos as int, elem_type, count - k) == Some(
                (Seq::<NbtTag>::empty(), list_pos as int),
            ));
            assert(values_model(list@) + Seq::<NbtTag>::empty() =~= values_model(list@));
        }
        Ok((NbtValue::List(list), list_pos))
    } else if tag_type == 10 {
        match read_compound_payload(data, pos) {
            Ok((c, p)) => Ok((NbtValue::Compound(c), p)),
            Err(e) => Err(e),
        }
    } else if tag_type == 11 || tag_type == 12 {
        let msg = if tag_type == 11 {
            "int array extends past end"
        } else {
            "long array extends past end"
        };
        if avail < 4 {
            return Err(msg.to_string());
        }
        let len = read_be_i32(data, pos);
        let start = pos + 4;
        let width: usize = if tag_type == 11 { 4 } else { 8 };
        if len < 0 || len as usize > (n - start) / width {
            return Err(msg.to_string());
        }
        let len = len as usize;
        if tag_type == 11 {
            let mut arr: Vec<i32> = Vec::new();
            assert(start + 4 * len <= n) by (nonlinear_arith)
                requires
                    len <= (n - start) / 4,
                    start <= n,
            ;
            let mut i: usize = 0;
            while i < len
                invariant
                    i <= len,
                    n == data@.len(),
                    start + 4 * len <= data@.len(),
                    arr@ =~= Seq::new(
                        i as nat,
                        |j: int| be_u32_at(data@, start + 4 * j) as i32,
                    ),
                decreases len - i,
            {
                assert(4 * i + 4 <= 4 * len) by (nonlinear_arith)
                    requires
                        i < len,
                ;
                arr.push(read_be_i32(data, start + 4 * i));
                i += 1;
            }
            Ok((NbtValue::IntArray(arr), start + 4 * len))
        } else {
            let mut arr: Vec<i64> = Vec::new();
            assert(start + 8 * len <= n) by (nonlinear_arith)
                requires
                    len <= (n - start) / 8,
                    start <= n,
            ;
            let mut i: usize = 0;
            while i < len
                invariant
                    i <= len,
                    n == data@.len(),
                    start + 8 * len <= data@.len(),
                    arr@ =~= Seq::new(
                        i as nat,
                        |j: int| be_u64_at(data@, start + 8 * j) as i64,
                    ),
                decreases len - i,
            {
                assert(8 * i + 8 <= 8 * len) by (nonlinear_arith)
                    requires
                        i < len,
                ;
                arr.push(read_be_i64(data, start + 8 * i));
                i += 1;
            }
            Ok((NbtValue::LongArray(arr), start + 8 * len))
        }
    } else {
        Err(number_message("unknown NBT tag type: ", tag_type, ""))
    }
}

fn read_compound_payload(data: &[u8], pos: usize) -> (r: Result<(NbtCompound, usize), String>)
    ensures
        match parse_compound(data@, pos as int) {
            Some((ts, p)) => r matches Ok((c, q)) && c@.tags == ts && c@.name == Seq::<char>::empty()
                && q == p,
            None => r is Err,
        },
    decreases data@.len() - pos, 0int, 0int,
{
    let ghost d = data@;
    if pos >= data.len() {
        return Err("unexpected end in compound".to_string());
    }
    let mut tags: Vec<(String, NbtValue)> = Vec::new();
    let mut p = pos;
    loop
        invariant
            d == data@,
            pos <= p <= d.len(),
            parse_compound(d, pos as int) == match parse_compound(d, p as int) {
                Some((rest, e)) => Some((tags_model(tags@) + rest, e)),
                None => None,
            },
        decreases d.len() - p,
    {
        if p >= data.len() {
            return Err("unexpected end in compound".to_string());
        }
        let tag_type = data[p];
        if tag_type == 0 {
            proof {
                assert(tags_model(tags@) + Seq::<(Seq<char>, NbtTag)>::empty() =~= tags_model(
                    tags@,
                ));
            }
            let name = String::new();
            let c = NbtCompound { name, tags };
            return Ok((c, p + 1));
        }
        let (name, p1) = match read_string(data, p + 1) {
            Ok(x) => x,
            Err(e) => {
                return Err(e);
            },
        };
        proof {
            lemma_parse_progress(d, p1 as int, tag_type);
        }
        let (value, p2) = match read_value(data, p1, tag_type) {
            Ok(x) => x,
            Err(e) => {
                return Err(e);
            },
        };
        let ghost prev = tags@;
        proof {
            lemma_compound_progress(d, p2 as int);
            assert(tags_model(prev.push((name, value))) == tags_model(prev).push(
                (name@, value@),
            )) by {
                assert(prev.push((name, value)).drop_last() =~= prev);
            }
            match parse_compound(d, p2 as int) {
                Some((rest, e)) => {
                    assert(tags_model(prev) + (seq![(name@, value@)] + rest) =~= tags_model(
                        prev,
                    ).push((name@, value@)) + rest);
                },
                None => {},
            }
        }
        tags.push((name, value));
        p = p2;
    }
}

/// Decodes an NBT document whose root is a compound.
pub fn read_nbt(data: &[u8]) -> (r: Result<NbtCompound, String>)
    ensures
        match spec_read_nbt(data@) {
            Some(c) => r matches Ok(x) && x@ == c,
            None => r is Err,
        },
{
    if data.len() == 0 {
        return Err("empty NBT data".to_string());
    }
    let tag_type = data[0];
    if tag_type != 10 {
        return Err(number_message("root tag is not compound (type=", tag_type, ")"));
    }
    let (name, p1) = match read_string(data, 1) {
        Ok(x) => x,
        Err(e) => {
            return Err(e);
        },
    };
    match read_compound_payload(data, p1) {
        Ok((c, _)) => {
            let result = NbtCompound { name, tags: c.tags };
            Ok(result)
        },
        Err(e) => Err(e),
    }
}


// ---------------------------------------------------------------------
// Encoding then decoding gives the compound back.
// ---------------------------------------------------------------------

/// A string whose UTF-8 form fits the format's signed 16-bit length.
pub open spec fn text_fits(t: Seq<char>) -> bool {
    encode_utf8(t).len() <= 0x7FFF
}

/// A tag that the encoding can carry and decoding gives back unchanged:
/// lengths fit their fields, lists hold elements of one type, and nested
/// compounds are unnamed (the format stores no name for them).
pub open spec fn wf_tag(t: NbtTag) -> bool
    decreases t,
{
    match t {
        NbtTag::ByteArray(a) => a.len() <= i32::MAX,
        NbtTag::Text(x) => text_fits(x),
        NbtTag::List(l) => l.len() <= i32::MAX && wf_values(l, list_elem_id(l)),
        NbtTag::Compound(c) => c.name.len() == 0 && wf_tags(c.tags),
        NbtTag::IntArray(a) => a.len() <= i32::MAX,
        NbtTag::LongArray(a) => a.len() <= i32::MAX,
        _ => true,
    }
}

/// List elements that are all of type `elem` and well formed.
pub open spec fn wf_values(l: Seq<NbtTag>, elem: u8) -> bool
    decreases l,
{
    l.len() == 0 || (tag_id(l[0]) == elem && wf_tag(l[0]) && wf_values(l.drop_first(), elem))
}

/// Named tags whose names fit and whose values are well formed.
pub open spec fn wf_tags(ts: Seq<(Seq<char>, NbtTag)>) -> bool
    decreases ts,
{
    ts.len() == 0 || (text_fits(ts[0].0) && wf_tag(ts[0].1) && wf_tags(ts.drop_first()))
}

/// A root compound that the encoding carries unchanged.
pub open spec fn wf_compound(c: CompoundModel) -> bool {
    text_fits(c.name) && wf_tags(c.tags)
}

proof fn lemma_split(d: Seq<u8>, pos: int, x: Seq<u8>, y: Seq<u8>)
    requires
        0 <= pos,
        pos + x.len() + y.len() <= d.len(),
        d.subrange(pos, pos + x.len() + y.len()) == x + y,
    ensures
        d.subrange(pos, pos + x.len()) == x,
        d.subrange(pos + x.len(), pos + x.len() + y.len()) == y,
{
    assert(d.subrange(pos, pos + x.len()) =~= (x + y).subrange(0, x.len() as int));
    assert(d.subrange(pos + x.len(), pos + x.len() + y.len()) =~= (x + y).subrange(
        x.len() as int,
        (x.len() + y.len()) as int,
    ));
    assert((x + y).subrange(0, x.len() as int) =~= x);
    assert((x + y).subrange(x.len() as int, (x.len() + y.len()) as int) =~= y);
}

proof fn lemma_parse_text_written(d: Seq<u8>, pos: int, t: Seq<char>)
    requires
        text_fits(t),
        0 <= pos,
        pos + write_text(t).len() <= d.len(),
        d.subrange(pos, pos + write_text(t).len()) == write_text(t),
    ensures
        parse_text(d, pos) == Some((t, pos + write_text(t).len())),
{
    let b = encode_utf8(t);
    lemma_split(d, pos, u16_be(b.len() as u16), b);
    lemma_be_u16_roundtrip(d, pos, b.len() as u16);
    encode_utf8_decode_utf8(t);
    encode_utf8_valid_utf8(t);
}

#[verifier::spinoff_prover]
#[verifier::rlimit(40)]
proof fn lemma_ints_be(a: Seq<i32>)
    ensures
        ints_be(a).len() == 4 * a.len(),
        forall|i: int|
            0 <= i < a.len() ==> ints_be(a).subrange(4 * i, 4 * i + 4) == u32_be(
                #[trigger] a[i] as u32,
            ),
    decreases a.len(),
{
    if a.len() > 0 {
        lemma_ints_be(a.drop_last());
        let p = ints_be(a.drop_last());
        let q = u32_be(a.last() as u32);
        assert forall|i: int| 0 <= i < a.len() implies ints_be(a).subrange(4 * i, 4 * i + 4)
            == u32_be(#[trigger] a[i] as u32) by {
            if i < a.len() - 1 {
                assert(ints_be(a).subrange(4 * i, 4 * i + 4) =~= p.subrange(4 * i, 4 * i + 4));
                assert(a[i] == a.drop_last()[i]);
            } else {
                assert(ints_be(a).subrange(4 * i, 4 * i + 4) =~= q);
            }
        }
    }
}

#[verifier::spinoff_prover]
#[verifier::rlimit(40)]
proof fn lemma_longs_be(a: Seq<i64>)
    ensures
        longs_be(a).len() == 8 * a.len(),
        forall|i: int|
            0 <= i < a.len() ==> longs_be(a).subrange(8 * i, 8 * i + 8) == u64_be(
                #[trigger] a[i] as u64,
            ),
    decreases a.len(),
{
    if a.len() > 0 {
        lemma_longs_be(a.drop_last());
        let p = longs_be(a.drop_last());
        let q = u64_be(a.last() as u64);
        assert forall|i: int| 0 <= i < a.len() implies longs_be(a).subrange(8 * i, 8 * i + 8)
            == u64_be(#[trigger] a[i] as u64) by {
            if i < a.len() - 1 {
                assert(longs_be(a).subrange(8 * i, 8 * i + 8) =~= p.subrange(8 * i, 8 * i + 8));
                assert(a[i] == a.drop_last()[i]);
            } else {
                assert(longs_be(a).subrange(8 * i, 8 * i + 8) =~= q);
            }
        }
    }
}

proof fn lemma_sub(d: Seq<u8>, pos: int, w: Seq<u8>, i: int, k: int)
    requires
        0 <= pos,
        pos + w.len() <= d.len(),
        d.subrange(pos, pos + w.len()) == w,
        0 <= i,
        i + k <= w.len(),
        0 <= k,
    ensures
        d.subrange(pos + i, pos + i + k) == w.subrange(i, i + k),
{
    assert(d.subrange(pos + i, pos + i + k) =~= w.subrange(i, i + k));
}

proof fn lemma_parse_value_written(d: Seq<u8>, pos: int, t: NbtTag)
    requires
        wf_tag(t),
        0 <= pos,
        pos + write_tag_value(t).len() <= d.len(),
        d.subrange(pos, pos + write_tag_value(t).len()) == write_tag_value(t),
    ensures
        parse_value(d, pos, tag_id(t)) == Some((t, pos + write_tag_value(t).len())),
    decreases t,
{
    let w = write_tag_value(t);
    match t {
        NbtTag::Byte(b) => {
            assert(d[pos] == w[0]);
            assert((b as u8) as i8 == b) by (bit_vector);
        },
        NbtTag::Short(x) => {
            lemma_be_u16_roundtrip(d, pos, x as u16);
            assert((x as u16) as i16 == x) by (bit_vector);
        },
        NbtTag::Int(x) => {
            lemma_be_u32_roundtrip(d, pos, x as u32);
            assert((x as u32) as i32 == x) by (bit_vector);
        },
        NbtTag::Long(x) => {
            lemma_be_u64_roundtrip(d, pos, x as u64);
            assert((x as u64) as i64 == x) by (bit_vector);
        },
        NbtTag::Float(f) => {
            lemma_be_u32_roundtrip(d, pos, f);
        },
        NbtTag::Double(f) => {
            lemma_be_u64_roundtrip(d, pos, f);
        },
        NbtTag::ByteArray(a) => {
            lemma_split(d, pos, u32_be(a.len() as u32), a);
            lemma_be_u32_roundtrip(d, pos, a.len() as u32);
        },
        NbtTag::Text(x) => {
            lemma_parse_text_written(d, pos, x);
        },
        NbtTag::List(l) => {
            let head = seq![list_elem_id(l)] + u32_be(l.len() as u32);
            lemma_split(d, pos, head, write_values(l));
            lemma_sub(d, pos, head, 1, 4);
            assert(head.subrange(1, 5) =~= u32_be(l.len() as u32));
            lemma_be_u32_roundtrip(d, pos + 1, l.len() as u32);
            assert(d[pos] == head[0]);
            lemma_parse_list_written(d, pos + 5, l, list_elem_id(l));
        },
        NbtTag::Compound(c) => {
            lemma_parse_compound_written(d, pos, c.tags);
            assert(c.name =~= Seq::<char>::empty());
        },
        NbtTag::IntArray(a) => {
            lemma_ints_be(a);
            lemma_split(d, pos, u32_be(a.len() as u32), ints_be(a));
            lemma_be_u32_roundtrip(d, pos, a.len() as u32);
            let start = pos + 4;
            assert forall|i: int| 0 <= i < a.len() implies be_u32_at(d, start + 4 * i) as i32
                == a[i] by {
                lemma_sub(d, start, ints_be(a), 4 * i, 4);
                lemma_be_u32_roundtrip(d, start + 4 * i, a[i] as u32);
                let x = a[i];
                assert((x as u32) as i32 == x) by (bit_vector);
            }
            assert(Seq::new(a.len(), |i: int| be_u32_at(d, start + 4 * i) as i32) =~= a);
        },
        NbtTag::LongArray(a) => {
            lemma_longs_be(a);
            lemma_split(d, pos, u32_be(a.len() as u32), longs_be(a));
            lemma_be_u32_roundtrip(d, pos, a.len() as u32);
            let start = pos + 4;
            assert forall|i: int| 0 <= i < a.len() implies be_u64_at(d, start + 8 * i) as i64
                == a[i] by {
                lemma_sub(d, start, longs_be(a), 8 * i, 8);
                lemma_be_u64_roundtrip(d, start + 8 * i, a[i] as u64);
                let x = a[i];
                assert((x as u64) as i64 == x) by (bit_vector);
            }
            assert(Seq::new(a.len(), |i: int| be_u64_at(d, start + 8 * i) as i64) =~= a);
        },
    }
}

proof fn lemma_parse_list_written(d: Seq<u8>, pos: int, l: Seq<NbtTag>, elem: u8)
    requires
        wf_values(l, elem),
        0 <= pos,
        pos + write_values(l).len() <= d.len(),
        d.subrange(pos, pos + write_values(l).len()) == write_values(l),
    ensures
        parse_list(d, pos, elem, l.len() as int) == Some((l, pos + write_values(l).len())),
    decreases l,
{
    if l.len() > 0 {
        let w0 = write_tag_value(l[0]);
        let rest = write_values(l.drop_first());
        lemma_split(d, pos, w0, rest);
        lemma_parse_value_written(d, pos, l[0]);
        lemma_parse_list_written(d, pos + w0.len(), l.drop_first(), elem);
        assert(seq![l[0]] + l.drop_first() =~= l);
    } else {
        assert(l =~= Seq::<NbtTag>::empty());
    }
}

proof fn lemma_parse_compound_written(d: Seq<u8>, pos: int, ts: Seq<(Seq<char>, NbtTag)>)
    requires
        wf_tags(ts),
        0 <= pos,
        pos + write_tags(ts).len() + 1 <= d.len(),
        d.subrange(pos, pos + write_tags(ts).len() + 1) == write_tags(ts) + seq![0u8],
    ensures
        parse_compound(d, pos) == Some((ts, pos + write_tags(ts).len() + 1)),
    decreases ts,
{
    if ts.len() == 0 {
        assert(d[pos] == (write_tags(ts) + seq![0u8])[0]);
        assert(ts =~= Seq::<(Seq<char>, NbtTag)>::empty());
    } else {
        let t0 = ts[0];
        let wn = write_named(t0);
        let rest = write_tags(ts.drop_first()) + seq![0u8];
        assert(write_tags(ts) + seq![0u8] =~= wn + rest);
        lemma_split(d, pos, wn, rest);
        let head = seq![tag_id(t0.1)];
        let wt = write_text(t0.0);
        let wv = write_tag_value(t0.1);
        assert(wn =~= head + (wt + wv));
        lemma_split(d, pos, head, wt + wv);
        lemma_split(d, pos + 1, wt, wv);
        assert(d[pos] == head[0]);
        lemma_parse_text_written(d, pos + 1, t0.0);
        lemma_parse_value_written(d, pos + 1 + wt.len(), t0.1);
        lemma_parse_compound_written(d, pos + wn.len(), ts.drop_first());
        assert(seq![(t0.0, t0.1)] + ts.drop_first() =~= ts);
    }
}

/// Decoding the encoding of a well-formed compound gives it back.
pub proof fn lemma_nbt_roundtrip(c: CompoundModel)
    requires
        wf_compound(c),
    ensures
        spec_read_nbt(spec_write_nbt(c)) == Some(c),
{
    let d = spec_write_nbt(c);
    let wt = write_text(c.name);
    let body = write_tags(c.tags) + seq![0u8];
    assert(d =~= seq![10u8] + (wt + body));
    assert(d.subrange(0, d.len() as int) =~= d);
    lemma_split(d, 0, seq![10u8], wt + body);
    lemma_split(d, 1, wt, body);
    lemma_parse_text_written(d, 1, c.name);
    lemma_parse_compound_written(d, (1 + wt.len()) as int, c.tags);
}


// ---------------------------------------------------------------------
// Compressed documents and helpers.
// ---------------------------------------------------------------------

/// Decodes a gzip-compressed NBT document.
pub fn read_gzip_nbt(data: &[u8]) -> (r: Result<NbtCompound, String>)
    ensures
        match gzip_inflated(data@) {
            Some(raw) => match spec_read_nbt(raw) {
                Some(c) => r matches Ok(x) && x@ == c,
                None => r is Err,
            },
            None => r is Err,
        },
{
    match gzip_decompress(data) {
        Ok(buf) => read_nbt(buf.as_slice()),
        Err(e) => Err(e),
    }
}

/// Encodes `compound` and gzip-compresses it at the best level.
pub fn write_gzip_nbt(compound: &NbtCompound) -> (r: Vec<u8>)
    ensures
        r@ == gzip_compressed(spec_write_nbt(compound@), 9),
        gzip_inflated(r@) == Some(spec_write_nbt(compound@)),
{
    let raw = write_nbt(compound);
    gzip_compress(raw.as_slice(), 9)
}

/// Decodes a zlib-compressed NBT document.
pub fn read_zlib_nbt(data: &[u8]) -> (r: Result<NbtCompound, String>)
    ensures
        match zlib_inflated(data@) {
            Some(raw) => match spec_read_nbt(raw) {
                Some(c) => r matches Ok(x) && x@ == c,
                None => r is Err,
            },
            None => r is Err,
        },
{
    match zlib_decompress(data) {
        Ok(buf) => read_nbt(buf.as_slice()),
        Err(e) => Err(e),
    }
}

/// Encodes `compound` and zlib-compresses it at the best level.
pub fn write_zlib_nbt(compound: &NbtCompound) -> (r: Vec<u8>)
    ensures
        r@ == zlib_compressed(spec_write_nbt(compound@), 9),
        zlib_inflated(r@) == Some(spec_write_nbt(compound@)),
{
    let raw = write_nbt(compound);
    zlib_compress(raw.as_slice(), 9)
}

/// `a`, zero-padded to at least `n` elements.
pub open spec fn padded<T>(a: Seq<T>, n: int, zero: T) -> Seq<T> {
    if a.len() < n {
        a + Seq::new((n - a.len()) as nat, |_i: int| zero)
    } else {
        a
    }
}

fn pad_to<T: Copy>(v: &mut Vec<T>, n: usize, zero: T)
    ensures
        final(v)@ == padded(old(v)@, n as int, zero),
{
    let ghost start = v@;
    while v.len() < n
        invariant
            start.len() <= v@.len() <= (if start.len() < n { n as int } else { start.len() as int }),
            v@ == start + Seq::new((v@.len() - start.len()) as nat, |_i: int| zero),
        decreases n - v@.len(),
    {
        v.push(zero);
        assert(v@ =~= start + Seq::new((v@.len() - start.len()) as nat, |_i: int| zero));
    }
    assert(v@ =~= padded(start, n as int, zero));
}

/// The byte array called `name`, zero-padded to `default_len`; all zeros
/// when there is none.
pub fn get_byte_array_or(compound: &NbtCompound, name: &str, default_len: usize) -> (r: Vec<u8>)
    ensures
        r@ == match lookup(compound@.tags, name@) {
            Some(NbtTag::ByteArray(a)) => padded(a, default_len as int, 0u8),
            _ => Seq::new(default_len as nat, |_i: int| 0u8),
        },
{
    match compound.byte_array(name) {
        Some(b) => {
            let mut v: Vec<u8> = Vec::new();
            v.extend_from_slice(b);
            pad_to(&mut v, default_len, 0u8);
            assert(v@ =~= padded(b@, default_len as int, 0u8));
            v
        },
        None => {
            let v = vec![0u8; default_len];
            assert(v@ =~= Seq::new(default_len as nat, |_i: int| 0u8));
            v
        },
    }
}

/// The int array called `name`, zero-padded to `default_len`; all zeros
/// when there is none.
pub fn get_int_array_or(compound: &NbtCompound, name: &str, default_len: usize) -> (r: Vec<i32>)
    ensures
        r@ == match lookup(compound@.tags, name@) {
            Some(NbtTag::IntArray(a)) => padded(a, default_len as int, 0i32),
            _ => Seq::new(default_len as nat, |_i: int| 0i32),
        },
{
    match compound.int_array(name) {
        Some(b) => {
            let mut v: Vec<i32> = Vec::new();
            v.extend_from_slice(b);
            pad_to(&mut v, default_len, 0i32);
            assert(v@ =~= padded(b@, default_len as int, 0i32));
            v
        },
        None => {
            let v = vec![0i32; default_len];
            assert(v@ =~= Seq::new(default_len as nat, |_i: int| 0i32));
            v
        },
    }
}

/// The long array called `name`, zero-padded to `default_len`; all zeros
/// when there is none.
pub fn get_long_array_or(compound: &NbtCompound, name: &str, default_len: usize) -> (r: Vec<i64>)
    ensures
        r@ == match lookup(compound@.tags, name@) {
            Some(NbtTag::LongArray(a)) => padded(a, default_len as int, 0i64),
            _ => Seq::new(default_len as nat, |_i: int| 0i64),
        },
{
    match compound.long_array(name) {
        Some(b) => {
            let mut v: Vec<i64> = Vec::new();
            v.extend_from_slice(b);
            pad_to(&mut v, default_len, 0i64);
            assert(v@ =~= padded(b@, default_len as int, 0i64));
            v
        },
        None => {
            let v = vec![0i64; default_len];
            assert(v@ =~= Seq::new(default_len as nat, |_i: int| 0i64));
            v
        },
    }
}

/// The nibble at `index` of a packed nibble array (low nibble first), or 0
/// past its end.
pub open spec fn nibble_at(data: Seq<u8>, index: int) -> u8 {
    if index < 0 || index / 2 >= data.len() {
        0
    } else if index % 2 == 0 {
        data[index / 2] & 0x0F
    } else {
        (data[index / 2] >> 4u8) & 0x0F
    }
}

/// Reads the nibble at `index`; 0 past the end.
pub fn get_nibble(data: &[u8], index: usize) -> (r: u8)
    ensures
        r == nibble_at(data@, index as int),
        r < 16,
{
    let byte_index = index >> 1;
    assert(byte_index == index / 2 && (index & 1) == index % 2) by (bit_vector)
        requires
            byte_index == index >> 1,
    ;
    if byte_index >= data.len() {
        return 0;
    }
    let b = data[byte_index];
    proof {
        crate::bytes::lemma_nibbles(b);
    }
    if index & 1 == 0 {
        b & 0x0F
    } else {
        (b >> 4) & 0x0F
    }
}

/// Writes the low four bits of `value` as the nibble at `index`; does
/// nothing past the end.
pub fn set_nibble(data: &mut [u8], index: usize, value: u8)
    ensures
        final(data)@.len() == old(data)@.len(),
        index / 2 >= old(data)@.len() ==> final(data)@ == old(data)@,
        index / 2 < old(data)@.len() ==> nibble_at(final(data)@, index as int) == value & 0x0F,
        forall|j: int|
            0 <= j < old(data)@.len() * 2 && j != index ==> nibble_at(final(data)@, j)
                == nibble_at(old(data)@, j),
{
    let byte_index = index >> 1;
    assert(byte_index == index / 2 && (index & 1) == index % 2) by (bit_vector)
        requires
            byte_index == index >> 1,
    ;
    if byte_index >= data.len() {
        return;
    }
    let val = value & 0x0F;
    let old_b = data[byte_index];
    let new_b = if index & 1 == 0 {
        (old_b & 0xF0) | val
    } else {
        (old_b & 0x0F) | (val << 4u8)
    };
    data[byte_index] = new_b;
    assert(((old_b & 0xF0) | (value & 0x0F)) & 0x0F == value & 0x0F
        && (((old_b & 0xF0) | (value & 0x0F)) >> 4u8) & 0x0F == (old_b >> 4u8) & 0x0F
        && ((old_b & 0x0F) | ((value & 0x0F) << 4u8)) & 0x0F == old_b & 0x0F
        && (((old_b & 0x0F) | ((value & 0x0F) << 4u8)) >> 4u8) & 0x0F == value & 0x0F)
        by (bit_vector);
    assert forall|j: int|
        0 <= j < old(data)@.len() * 2 && j != index implies nibble_at(data@, j) == nibble_at(
        old(data)@,
        j,
    ) by {
        if j / 2 != index / 2 {
            assert(data@[j / 2] == old(data)@[j / 2]);
        }
    }
}

/// A copy of a list of values.
pub fn clone_values_slice(v: &[NbtValue]) -> (r: Vec<NbtValue>)
    ensures
        values_model(r@) == values_model(v@),
{
    proof {
        lemma_values_model(v@);
    }
    let mut out: Vec<NbtValue> = Vec::new();
    let mut i: usize = 0;
    while i < v.len()
        invariant
            i <= v@.len(),
            values_model(v@).len() == v@.len(),
            forall|j: int| 0 <= j < v@.len() ==> #[trigger] values_model(v@)[j] == v@[j]@,
            values_model(out@) == values_model(v@).take(i as int),
        decreases v@.len() - i,
    {
        let ghost prev = out@;
        out.push(v[i].deep_clone());
        proof {
            lemma_values_model(out@);
            lemma_values_model(prev);
            assert(values_model(out@) =~= values_model(v@).take(i + 1));
        }
        i += 1;
    }
    assert(values_model(v@).take(i as int) =~= values_model(v@));
    out
}

/// A copy of the list called `name`, or an empty list.
pub fn clone_or_empty_list(compound: &NbtCompound, name: &str) -> (r: Vec<NbtValue>)
    ensures
        values_model(r@) == match lookup(compound@.tags, name@) {
            Some(NbtTag::List(l)) => l,
            _ => Seq::<NbtTag>::empty(),
        },
{
    match compound.get(name) {
        Some(NbtValue::List(l)) => clone_values(l),
        _ => {
            let r: Vec<NbtValue> = Vec::new();
            assert(values_model(r@) =~= Seq::<NbtTag>::empty());
            r
        },
    }
}

/// The compound elements of a list, in order.
pub open spec fn compounds_in(l: Seq<NbtTag>) -> Seq<CompoundModel>
    decreases l.len(),
{
    if l.len() == 0 {
        Seq::empty()
    } else {
        let rest = compounds_in(l.drop_last());
        match l.last() {
            NbtTag::Compound(c) => rest.push(c),
            _ => rest,
        }
    }
}

impl NbtCompound {
    /// The compound elements of the list called `name`, in order; empty when
    /// there is no such list.
    pub fn list_compounds(&self, name: &str) -> (r: Vec<&NbtCompound>)
        ensures
            Seq::new(r@.len(), |i: int| r@[i]@) == match lookup(self@.tags, name@) {
                Some(NbtTag::List(l)) => compounds_in(l),
                _ => Seq::<CompoundModel>::empty(),
            },
    {
        let mut r: Vec<&NbtCompound> = Vec::new();
        match self.list(name) {
            Some(l) => {
                proof {
                    lemma_values_model(l@);
                }
                let mut i: usize = 0;
                while i < l.len()
                    invariant
                        i <= l@.len(),
                        values_model(l@).len() == l@.len(),
                        forall|j: int| 0 <= j < l@.len() ==> #[trigger] values_model(l@)[j]
                            == value_model(l@[j]),
                        Seq::new(r@.len(), |k: int| r@[k]@) == compounds_in(
                            values_model(l@).take(i as int),
                        ),
                    decreases l@.len() - i,
                {
                    let ghost m = values_model(l@);
                    assert(m.take(i + 1).drop_last() =~= m.take(i as int));
                    assert(m.take(i + 1).last() == value_model(l@[i as int]));
                    let ghost prev = r@;
                    match &l[i] {
                        NbtValue::Compound(c) => {
                            r.push(c);
                            assert(Seq::new(r@.len(), |k: int| r@[k]@) =~= Seq::new(
                                prev.len(),
                                |k: int| prev[k]@,
                            ).push(c@));
                        },
                        _ => {},
                    }
                    i += 1;
                }
                assert(values_model(l@).take(i as int) =~= values_model(l@));
            },
            None => {
                assert(Seq::new(r@.len(), |k: int| r@[k]@) =~= Seq::<CompoundModel>::empty());
            },
        }
        r
    }
}

// ---------------------------------------------------------------------
// What a read gives back of a write.
// ---------------------------------------------------------------------

proof fn lemma_without_name_lacks(tags: Seq<(Seq<char>, NbtTag)>, name: Seq<char>)
    ensures
        forall|j: int| 0 <= j < without_name(tags, name).len() ==> without_name(tags, name)[j].0
            != name,
    decreases tags.len(),
{
    if tags.len() > 0 {
        lemma_without_name_lacks(tags.drop_last(), name);
        let rest = without_name(tags.drop_last(), name);
        if tags.last().0 != name {
            assert forall|j: int| 0 <= j < rest.push(tags.last()).len() implies rest.push(
                tags.last(),
            )[j].0 != name by {
                if j < rest.len() {
                    assert(rest.push(tags.last())[j] == rest[j]);
                }
            }
        }
    }
}

proof fn lemma_without_name_keeps(tags: Seq<(Seq<char>, NbtTag)>, name: Seq<char>, other: Seq<char>)
    requires
        other != name,
    ensures
        lookup(without_name(tags, name), other) == lookup(tags, other),
    decreases tags.len(),
{
    if tags.len() > 0 {
        let init = tags.drop_last();
        lemma_without_name_keeps(init, name, other);
        let w = without_name(init, name);
        lemma_name_index(init, other);
        lemma_name_index(w, other);
        lemma_name_index(tags, other);
        lemma_name_index(without_name(tags, name), other);
        lemma_lookup_push(init, tags.last(), other);
        if tags.last().0 != name {
            lemma_lookup_push(w, tags.last(), other);
        }
        assert(init.push(tags.last()) =~= tags);
    }
}

proof fn lemma_lookup_push(tags: Seq<(Seq<char>, NbtTag)>, t: (Seq<char>, NbtTag), name: Seq<char>)
    ensures
        lookup(tags.push(t), name) == if name_index(tags, name) != -1 {
            lookup(tags, name)
        } else if t.0 == name {
            Some(t.1)
        } else {
            None
        },
{
    let s = tags.push(t);
    lemma_name_index(tags, name);
    lemma_name_index(s, name);
    if name_index(tags, name) != -1 {
        let i = name_index(tags, name);
        assert(s[i] == tags[i]);
        lemma_find_from(s, name, i);
        assert forall|j: int| 0 <= j < i implies s[j].0 != name by {
            if s[j].0 == name {
                assert(tags[j].0 == name);
            }
        }
        lemma_find_from(s, name, i);
    } else {
        assert forall|j: int| 0 <= j < tags.len() implies s[j].0 != name by {
            assert(s[j] == tags[j]);
        }
        lemma_find_from(s, name, tags.len() as int);
    }
}

/// After `insert(name, v)`, looking `name` up gives `v`, and every other
/// name gives what it gave before.
pub proof fn lemma_lookup_after_insert(
    tags: Seq<(Seq<char>, NbtTag)>,
    name: Seq<char>,
    v: NbtTag,
    other: Seq<char>,
)
    ensures
        lookup(without_name(tags, name).push((name, v)), name) == Some(v),
        other != name ==> lookup(without_name(tags, name).push((name, v)), other) == lookup(
            tags,
            other,
        ),
{
    let w = without_name(tags, name);
    lemma_without_name_lacks(tags, name);
    lemma_name_index(w, name);
    lemma_lookup_push(w, (name, v), name);
    if other != name {
        lemma_lookup_push(w, (name, v), other);
        lemma_without_name_keeps(tags, name, other);
        lemma_name_index(w, other);
    }
}

/// After `remove(name)`, no tag of that name is left, and every other name
/// gives what it gave before.
pub proof fn lemma_lookup_after_remove(
    tags: Seq<(Seq<char>, NbtTag)>,
    name: Seq<char>,
    other: Seq<char>,
)
    ensures
        lookup(without_name(tags, name), name) is None,
        other != name ==> lookup(without_name(tags, name), other) == lookup(tags, other),
{
    lemma_without_name_lacks(tags, name);
    lemma_name_index(without_name(tags, name), name);
    if other != name {
        lemma_without_name_keeps(tags, name, other);
    }
}


/// Every named tag of `ts` has a name that fits and a well-formed value.
pub open spec fn each_tag_wf(ts: Seq<(Seq<char>, NbtTag)>) -> bool {
    forall|i: int| 0 <= i < ts.len() ==> text_fits((#[trigger] ts[i]).0) && wf_tag(ts[i].1)
}

/// `wf_tags` holds exactly when each tag is well formed.
pub proof fn lemma_wf_tags_each(ts: Seq<(Seq<char>, NbtTag)>)
    ensures
        wf_tags(ts) <==> each_tag_wf(ts),
    decreases ts.len(),
{
    if ts.len() > 0 {
        let r = ts.drop_first();
        lemma_wf_tags_each(r);
        if each_tag_wf(ts) {
            assert forall|i: int| 0 <= i < r.len() implies text_fits((#[trigger] r[i]).0) && wf_tag(r[i].1) by {
                assert(r[i] == ts[i + 1]);
            }
            assert(text_fits(ts[0].0) && wf_tag(ts[0].1));
        }
        if wf_tags(ts) {
            assert forall|i: int| 0 <= i < ts.len() implies text_fits((#[trigger] ts[i]).0) && wf_tag(ts[i].1) by {
                if i > 0 {
                    assert(ts[i] == r[i - 1]);
                }
            }
        }
    }
}

/// Replacing the tags named `name` by one well-formed tag keeps the tags
/// well formed.
pub proof fn lemma_wf_tags_put(ts: Seq<(Seq<char>, NbtTag)>, name: Seq<char>, v: NbtTag)
    requires
        wf_tags(ts),
        text_fits(name),
        wf_tag(v),
    ensures
        wf_tags(without_name(ts, name).push((name, v))),
{
    lemma_wf_tags_each(ts);
    lemma_without_name_each(ts, name);
    let w = without_name(ts, name).push((name, v));
    assert forall|i: int| 0 <= i < w.len() implies text_fits((#[trigger] w[i]).0) && wf_tag(w[i].1) by {
        if i < w.len() - 1 {
            assert(w[i] == without_name(ts, name)[i]);
        }
    }
    lemma_wf_tags_each(w);
}

proof fn lemma_without_name_each(ts: Seq<(Seq<char>, NbtTag)>, name: Seq<char>)
    requires
        each_tag_wf(ts),
    ensures
        each_tag_wf(without_name(ts, name)),
    decreases ts.len(),
{
    if ts.len() > 0 {
        let p = ts.drop_last();
        assert forall|i: int| 0 <= i < p.len() implies text_fits((#[trigger] p[i]).0) && wf_tag(p[i].1) by {
            assert(p[i] == ts[i]);
        }
        lemma_without_name_each(p, name);
        let rest = without_name(p, name);
        if ts.last().0 != name {
            let w = rest.push(ts.last());
            assert forall|i: int| 0 <= i < w.len() implies text_fits((#[trigger] w[i]).0) && wf_tag(w[i].1) by {
                if i < rest.len() {
                    assert(w[i] == rest[i]);
                } else {
                    assert(w[i] == ts[ts.len() - 1]);
                }
            }
        }
    }
}

} // verus!
