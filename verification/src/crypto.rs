//! Backup decryption: the keybag of an encrypted backup, the class keys a
//! backup password recovers from it, and the decryption of what they wrap.
use std::collections::HashMap;

use aes::cipher::{block_padding::NoPadding, BlockModeDecrypt, KeyIvInit};
use aes_kw::KeyInit;
use vstd::prelude::*;
use vstd::slice::{slice_subrange, slice_to_vec};

use crate::error::{viewed, CradleError, ErrorView};
use crate::plists::{
    bytes_member, file_members, file_view, find_bytes, members_view, read_members, PlistValue,
    PlistView,
};
use crate::text::{decimal, decimal_text};

verus! {

broadcast use vstd::std_specs::hash::group_hash_axioms;

/// The length of a 32-byte key once wrapped.
pub const WRAPPED_KEY_LEN: usize = 40;

/// The bit of a class's `WRAP` flags that says its key is wrapped by the password.
pub const WRAP_BY_PASSWORD: u32 = 0x2;

/// The tag a protection class starts with.
pub const CLAS: [u8; 4] = [0x43, 0x4c, 0x41, 0x53];

/// The tag of a class's wrapping flags.
pub const WRAP: [u8; 4] = [0x57, 0x52, 0x41, 0x50];

/// The tag of a class's wrapped key.
pub const WPKY: [u8; 4] = [0x57, 0x50, 0x4b, 0x59];

/// The tag of the salt of the last derivation.
pub const SALT: [u8; 4] = [0x53, 0x41, 0x4c, 0x54];

/// The tag of the rounds of the last derivation.
pub const ITER: [u8; 4] = [0x49, 0x54, 0x45, 0x52];

/// The tag of the salt of the first, stretching derivation.
pub const DPSL: [u8; 4] = [0x44, 0x50, 0x53, 0x4c];

/// The tag of the rounds of the first, stretching derivation.
pub const DPIC: [u8; 4] = [0x44, 0x50, 0x49, 0x43];

// --- what the outside crates compute ----------------------------------------

/// The 32 bytes that PBKDF2 with HMAC-SHA-256 derives.
pub uninterp spec fn pbkdf2_hmac_sha256(password: Seq<u8>, salt: Seq<u8>, rounds: u32) -> Seq<u8>;

/// The 32 bytes that PBKDF2 with HMAC-SHA-1 derives.
pub uninterp spec fn pbkdf2_hmac_sha1(password: Seq<u8>, salt: Seq<u8>, rounds: u32) -> Seq<u8>;

/// The key that AES key unwrapping recovers, unless the integrity check fails.
pub uninterp spec fn aes_kw_unwrapped(kek: Seq<u8>, wrapped: Seq<u8>) -> Option<Seq<u8>>;

/// What AES-256 in CBC mode decrypts whole blocks to.
pub uninterp spec fn aes256_cbc_decrypted(key: Seq<u8>, iv: Seq<u8>, data: Seq<u8>) -> Seq<u8>;

/// Calls `pbkdf2::pbkdf2_hmac` with SHA-256 and a 32-byte output: the output
/// depends on the password, the salt and the rounds alone.
#[verifier::external_body]
fn derive_sha256(password: &[u8], salt: &[u8], rounds: u32) -> (key: [u8; 32])
    ensures
        key@ == pbkdf2_hmac_sha256(password@, salt@, rounds),
{
    let mut key = [0u8; 32];
    pbkdf2::pbkdf2_hmac::<sha2::Sha256>(password, salt, rounds, &mut key);
    key
}

/// Calls `pbkdf2::pbkdf2_hmac` with SHA-1 and a 32-byte output: the output
/// depends on the password, the salt and the rounds alone.
#[verifier::external_body]
fn derive_sha1(password: &[u8], salt: &[u8], rounds: u32) -> (key: [u8; 32])
    ensures
        key@ == pbkdf2_hmac_sha1(password@, salt@, rounds),
{
    let mut key = [0u8; 32];
    pbkdf2::pbkdf2_hmac::<sha1::Sha1>(password, salt, rounds, &mut key);
    key
}

/// Calls `aes_kw::KwAes256::unwrap_key`. Of 40 bytes it recovers 32, or
/// reports that the integrity check failed; which of the two, and the key,
/// depend on the two arguments alone.
#[verifier::external_body]
fn unwrap_key(kek: &[u8; 32], wrapped: &[u8]) -> (key: Option<[u8; 32]>)
    requires
        wrapped@.len() == WRAPPED_KEY_LEN,
    ensures
        match key {
            Some(k) => aes_kw_unwrapped(kek@, wrapped@) == Some(k@),
            None => aes_kw_unwrapped(kek@, wrapped@) is None,
        },
{
    let mut key = [0u8; 32];
    match aes_kw::KwAes256::new(kek.into()).unwrap_key(wrapped, &mut key) {
        Ok(_) => Some(key),
        Err(_) => None,
    }
}

/// Calls `decrypt_padded::<NoPadding>` of `cbc::Decryptor<aes::Aes256>`. On
/// whole blocks it always succeeds and replaces the data, in place and length
/// for length, by what the key, the initial block and the data determine.
#[verifier::external_body]
fn decrypt_blocks(key: &[u8; 32], iv: &[u8; 16], data: &mut [u8]) -> (done: bool)
    requires
        old(data)@.len() % 16 == 0,
    ensures
        done,
        final(data)@ == aes256_cbc_decrypted(key@, iv@, old(data)@),
        final(data)@.len() == old(data)@.len(),
{
    cbc::Decryptor::<aes::Aes256>::new(&(*key).into(), &(*iv).into()).decrypt_padded::<NoPadding>(data).is_ok()
}

// --- the tag-length-value stream ---------------------------------------------

/// The number that four bytes spell, most significant first.
pub open spec fn be_u32(b: Seq<u8>) -> u32 {
    (b[0] * 0x100_0000 + b[1] * 0x1_0000 + b[2] * 0x100 + b[3]) as u32
}

/// The number that four bytes spell, least significant first.
pub open spec fn le_u32(b: Seq<u8>) -> u32 {
    (b[3] * 0x100_0000 + b[2] * 0x1_0000 + b[1] * 0x100 + b[0]) as u32
}

/// One field of a keybag.
#[derive(Debug)]
pub struct TlvField {
    pub tag: [u8; 4],
    pub value: Vec<u8>,
}

/// One field of a keybag, as sequences of bytes.
pub struct FieldView {
    pub tag: Seq<u8>,
    pub value: Seq<u8>,
}

impl View for TlvField {
    type V = FieldView;

    open spec fn view(&self) -> FieldView {
        FieldView { tag: self.tag@, value: self.value@ }
    }
}

/// The views of several fields.
pub open spec fn field_views(fields: Seq<TlvField>) -> Seq<FieldView> {
    fields.map_values(|f: TlvField| f@)
}

/// The views of several runs of fields.
pub open spec fn group_views(groups: Seq<&[TlvField]>) -> Seq<Seq<FieldView>> {
    groups.map_values(|g: &[TlvField]| field_views(g@))
}

/// The fields that `raw` spells: each is a four-byte tag, a four-byte length
/// and that many bytes.
pub open spec fn parsed_fields(raw: Seq<u8>) -> Result<Seq<FieldView>, ErrorView>
    decreases raw.len(),
{
    if raw.len() == 0 {
        Ok(seq![])
    } else if raw.len() < 8 {
        Err(ErrorView::Other("BackupKeyBag ends mid-field (short header)"@))
    } else {
        let len = be_u32(raw.subrange(4, 8)) as int;
        if raw.len() - 8 < len {
            Err(ErrorView::Other("BackupKeyBag field runs past end of blob"@))
        } else {
            let field = FieldView { tag: raw.subrange(0, 4), value: raw.subrange(8, 8 + len) };
            match parsed_fields(raw.skip(8 + len)) {
                Ok(rest) => Ok(seq![field] + rest),
                Err(e) => Err(e),
            }
        }
    }
}

/// `first` in front of the fields of `rest`, where those could be read.
spec fn prepended(first: Seq<FieldView>, rest: Result<Seq<FieldView>, ErrorView>) -> Result<
    Seq<FieldView>,
    ErrorView,
> {
    match rest {
        Ok(r) => Ok(first + r),
        Err(e) => Err(e),
    }
}

/// The four bytes of `raw` from `at`.
fn four(raw: &[u8], at: usize) -> (b: [u8; 4])
    requires
        at + 4 <= raw@.len(),
    ensures
        b@ == raw@.subrange(at as int, at + 4),
{
    let b = [raw[at], raw[at + 1], raw[at + 2], raw[at + 3]];
    assert(b@ =~= raw@.subrange(at as int, at + 4));
    b
}

/// The number that four bytes spell, most significant first.
fn be_number(b: &[u8]) -> (n: u32)
    requires
        b@.len() == 4,
    ensures
        n == be_u32(b@),
{
    (b[0] as u32) * 0x100_0000 + (b[1] as u32) * 0x1_0000 + (b[2] as u32) * 0x100 + (b[3] as u32)
}

/// The number that four bytes spell, least significant first.
fn le_number(b: &[u8]) -> (n: u32)
    requires
        b@.len() == 4,
    ensures
        n == le_u32(b@),
{
    (b[3] as u32) * 0x100_0000 + (b[2] as u32) * 0x1_0000 + (b[1] as u32) * 0x100 + (b[0] as u32)
}

/// The result of reading several fields, taken by its view.
pub open spec fn fields_read(r: Result<Vec<TlvField>, CradleError>) -> Result<
    Seq<FieldView>,
    ErrorView,
> {
    match r {
        Ok(fields) => Ok(field_views(fields@)),
        Err(e) => Err(e@),
    }
}

/// Reads the fields of a raw keybag.
pub fn read_fields(raw: &[u8]) -> (r: Result<Vec<TlvField>, CradleError>)
    ensures
        fields_read(r) == parsed_fields(raw@),
{
    let mut fields: Vec<TlvField> = Vec::new();
    let mut cursor: usize = 0;
    assert(raw@.skip(0) =~= raw@);
    assert(prepended(field_views(fields@), parsed_fields(raw@)) == parsed_fields(raw@)) by {
        match parsed_fields(raw@) {
            Ok(r) => assert(field_views(fields@) + r =~= r),
            Err(_) => {},
        }
    }
    while cursor < raw.len()
        invariant
            cursor <= raw@.len(),
            parsed_fields(raw@) == prepended(
                field_views(fields@),
                parsed_fields(raw@.skip(cursor as int)),
            ),
        decreases raw@.len() - cursor,
    {
        let ghost rest = raw@.skip(cursor as int);
        if raw.len() - cursor < 8 {
            return Err(
                CradleError::Other("BackupKeyBag ends mid-field (short header)".to_owned()),
            );
        }
        let tag = four(raw, cursor);
        let len_bytes = four(raw, cursor + 4);
        assert(len_bytes@ =~= rest.subrange(4, 8));
        let len: usize = be_number(len_bytes.as_slice()) as usize;
        if raw.len() - cursor - 8 < len {
            return Err(CradleError::Other("BackupKeyBag field runs past end of blob".to_owned()));
        }
        let value = slice_to_vec(slice_subrange(raw, cursor + 8, cursor + 8 + len));
        let field = TlvField { tag, value };
        proof {
            assert(field@.tag =~= rest.subrange(0, 4));
            assert(field@.value =~= rest.subrange(8, 8 + len));
            assert(rest.skip(8 + len) =~= raw@.skip(cursor + 8 + len));
            assert(field_views(fields@.push(field)) =~= field_views(fields@) + seq![field@]);
            match parsed_fields(rest.skip(8 + len)) {
                Ok(r) => assert(field_views(fields@) + (seq![field@] + r) =~= (field_views(fields@)
                    + seq![field@]) + r),
                Err(_) => {},
            }
        }
        fields.push(field);
        cursor = cursor + 8 + len;
    }
    assert(field_views(fields@) + Seq::<FieldView>::empty() =~= field_views(fields@));
    Ok(fields)
}

/// The bytes that spell a number, most significant first.
pub open spec fn be_bytes(n: nat) -> Seq<u8> {
    seq![
        (n / 0x100_0000 % 0x100) as u8,
        (n / 0x1_0000 % 0x100) as u8,
        (n / 0x100 % 0x100) as u8,
        (n % 0x100) as u8,
    ]
}

/// The bytes that spell several fields, one behind the other.
pub open spec fn encoded_fields(fields: Seq<FieldView>) -> Seq<u8>
    decreases fields.len(),
{
    if fields.len() == 0 {
        seq![]
    } else {
        fields[0].tag + be_bytes(fields[0].value.len()) + fields[0].value + encoded_fields(
            fields.skip(1),
        )
    }
}

/// Whether a field can be spelled: its tag has four bytes, and its length
/// fits the four bytes it is written with.
pub open spec fn encodable(f: FieldView) -> bool {
    f.tag.len() == 4 && f.value.len() <= 0xffff_ffff
}

/// The parts of four sequences put one behind the other.
proof fn concatenation_parts(a: Seq<u8>, b: Seq<u8>, c: Seq<u8>, d: Seq<u8>)
    requires
        a.len() == 4,
        b.len() == 4,
    ensures
        (a + b + c + d).subrange(0, 4) == a,
        (a + b + c + d).subrange(4, 8) == b,
        (a + b + c + d).subrange(8, 8 + c.len() as int) == c,
        (a + b + c + d).skip(8 + c.len() as int) == d,
{
    assert((a + b + c + d).subrange(0, 4) =~= a);
    assert((a + b + c + d).subrange(4, 8) =~= b);
    assert((a + b + c + d).subrange(8, 8 + c.len() as int) =~= c);
    assert((a + b + c + d).skip(8 + c.len() as int) =~= d);
}

/// The bytes that spell a number spell that number.
proof fn be_bytes_spell(n: nat)
    requires
        n <= 0xffff_ffff,
    ensures
        be_u32(be_bytes(n)) == n,
{
    assert(n / 0x100_0000 % 0x100 * 0x100_0000 + n / 0x1_0000 % 0x100 * 0x1_0000 + n / 0x100 % 0x100
        * 0x100 + n % 0x100 == n);
}

/// Reading the bytes that spell some fields gives those fields back.
#[verifier::rlimit(60)]
#[verifier::spinoff_prover]
pub proof fn law_fields_read_back(fields: Seq<FieldView>)
    requires
        forall|i: int| 0 <= i < fields.len() ==> encodable(#[trigger] fields[i]),
    ensures
        parsed_fields(encoded_fields(fields)) == Ok::<Seq<FieldView>, ErrorView>(fields),
    decreases fields.len(),
{
    let raw = encoded_fields(fields);
    if fields.len() == 0 {
        assert(fields =~= seq![]);
    } else {
        let f = fields[0];
        let rest = fields.skip(1);
        assert(encodable(f));
        assert forall|i: int| 0 <= i < rest.len() implies encodable(#[trigger] rest[i]) by {
            assert(encodable(fields[i + 1]));
        }
        law_fields_read_back(rest);
        let n = f.value.len() as int;
        let tail = encoded_fields(rest);
        let bytes = be_bytes(n as nat);
        be_bytes_spell(n as nat);
        assert(raw == f.tag + bytes + f.value + tail);
        concatenation_parts(f.tag, bytes, f.value, tail);
        assert(seq![f] + rest =~= fields);
    }
}

// --- fields, root and classes --------------------------------------------------

/// The value of the first field tagged `tag`.
pub open spec fn find_field(f: Seq<FieldView>, tag: Seq<u8>) -> Option<Seq<u8>>
    decreases f.len(),
{
    if f.len() == 0 {
        None
    } else if f[0].tag == tag {
        Some(f[0].value)
    } else {
        find_field(f.skip(1), tag)
    }
}

/// The number in the first field tagged `tag`, where that field has four bytes.
pub open spec fn find_u32(f: Seq<FieldView>, tag: Seq<u8>) -> Option<u32> {
    match find_field(f, tag) {
        Some(b) => if b.len() == 4 {
            Some(be_u32(b))
        } else {
            None
        },
        None => None,
    }
}

/// The place of the first field tagged `tag`, or the number of fields.
pub open spec fn first_tagged(f: Seq<FieldView>, tag: Seq<u8>) -> nat
    decreases f.len(),
{
    if f.len() == 0 || f[0].tag == tag {
        0
    } else {
        1 + first_tagged(f.skip(1), tag)
    }
}

/// How many fields the class has that starts at the front of `f`: it goes up
/// to the next class.
pub open spec fn class_length(f: Seq<FieldView>) -> nat {
    1 + first_tagged(f.skip(1), CLAS@)
}

/// The first tagged place is at most the number of fields.
pub proof fn first_tagged_in_range(f: Seq<FieldView>, tag: Seq<u8>)
    ensures
        first_tagged(f, tag) <= f.len(),
    decreases f.len(),
{
    if f.len() != 0 && f[0].tag != tag {
        first_tagged_in_range(f.skip(1), tag);
    }
}

/// The fields of each class, where `f` starts with a class.
pub open spec fn split_classes(f: Seq<FieldView>) -> Seq<Seq<FieldView>>
    decreases f.len(),
{
    if f.len() == 0 {
        seq![]
    } else {
        proof {
            first_tagged_in_range(f.skip(1), CLAS@);
        }
        seq![f.take(class_length(f) as int)] + split_classes(f.skip(class_length(f) as int))
    }
}

/// Whether two tags are the same.
fn same_tag(a: &[u8; 4], b: &[u8; 4]) -> (same: bool)
    ensures
        same == (a@ == b@),
{
    let same = a[0] == b[0] && a[1] == b[1] && a[2] == b[2] && a[3] == b[3];
    proof {
        if same {
            assert(a@ =~= b@);
        }
    }
    same
}

/// The value of the first field tagged `tag`.
pub fn field_bytes<'a>(fields: &'a [TlvField], tag: &[u8; 4]) -> (r: Option<&'a [u8]>)
    ensures
        match r {
            Some(b) => find_field(field_views(fields@), tag@) == Some(b@),
            None => find_field(field_views(fields@), tag@) is None,
        },
{
    let ghost all = field_views(fields@);
    let mut i: usize = 0;
    assert(all.skip(0) =~= all);
    while i < fields.len()
        invariant
            i <= fields@.len(),
            all == field_views(fields@),
            find_field(all, tag@) == find_field(all.skip(i as int), tag@),
        decreases fields@.len() - i,
    {
        assert(all.skip(i as int)[0] == fields@[i as int]@);
        if same_tag(&fields[i].tag, tag) {
            return Some(fields[i].value.as_slice());
        }
        assert(all.skip(i as int).skip(1) =~= all.skip(i + 1));
        i = i + 1;
    }
    None
}

/// The number in the first field tagged `tag`, where that field has four bytes.
pub fn field_u32(fields: &[TlvField], tag: &[u8; 4]) -> (r: Option<u32>)
    ensures
        r == find_u32(field_views(fields@), tag@),
{
    match field_bytes(fields, tag) {
        Some(b) => if b.len() == 4 {
            Some(be_number(b))
        } else {
            None
        },
        None => None,
    }
}

/// The place of the first class at or behind `from`, or the number of fields.
fn next_class(fields: &[TlvField], from: usize) -> (at: usize)
    requires
        from <= fields@.len(),
    ensures
        from <= at <= fields@.len(),
        at == from + first_tagged(field_views(fields@).skip(from as int), CLAS@),
{
    let ghost all = field_views(fields@);
    let mut i: usize = from;
    while i < fields.len()
        invariant
            from <= i <= fields@.len(),
            all == field_views(fields@),
            from + first_tagged(all.skip(from as int), CLAS@) == i + first_tagged(
                all.skip(i as int),
                CLAS@,
            ),
        decreases fields@.len() - i,
    {
        assert(all.skip(i as int)[0] == fields@[i as int]@);
        let class_tag = CLAS;
        if same_tag(&fields[i].tag, &class_tag) {
            return i;
        }
        assert(all.skip(i as int).skip(1) =~= all.skip(i + 1));
        i = i + 1;
    }
    i
}

/// Parts the fields into those of the root, in front of the first class, and
/// those of each class.
pub fn root_and_classes(fields: &[TlvField]) -> (r: Result<
    (&[TlvField], Vec<&[TlvField]>),
    CradleError,
>)
    ensures
        ({
            let all = field_views(fields@);
            let first = first_tagged(all, CLAS@) as int;
            match r {
                Ok((root, classes)) => {
                    &&& first < all.len()
                    &&& field_views(root@) == all.take(first)
                    &&& group_views(classes@) == split_classes(all.skip(first))
                },
                Err(e) => {
                    &&& first == all.len()
                    &&& e@ == ErrorView::Other("BackupKeyBag has no protection classes"@)
                },
            }
        }),
{
    let ghost all = field_views(fields@);
    assert(all.skip(0) =~= all);
    let first = next_class(fields, 0);
    if first == fields.len() {
        return Err(CradleError::Other("BackupKeyBag has no protection classes".to_owned()));
    }
    let mut classes: Vec<&[TlvField]> = Vec::new();
    let mut start: usize = first;
    assert(group_views(classes@) + split_classes(all.skip(first as int)) =~= split_classes(
        all.skip(first as int),
    ));
    while start < fields.len()
        invariant
            first <= start <= fields@.len(),
            all == field_views(fields@),
            split_classes(all.skip(first as int)) == group_views(classes@) + split_classes(
                all.skip(start as int),
            ),
        decreases fields@.len() - start,
    {
        let end = next_class(fields, start + 1);
        let class = slice_subrange(fields, start, end);
        proof {
            let rest = all.skip(start as int);
            assert(rest.skip(1) =~= all.skip(start + 1));
            assert(class_length(rest) == end - start);
            assert(field_views(class@) =~= rest.take(end - start));
            assert(rest.skip(end - start) =~= all.skip(end as int));
            assert(group_views(classes@.push(class)) =~= group_views(classes@) + seq![
                field_views(class@),
            ]);
            assert(group_views(classes@) + (seq![field_views(class@)] + split_classes(
                all.skip(end as int),
            )) =~= (group_views(classes@) + seq![field_views(class@)]) + split_classes(
                all.skip(end as int),
            ));
        }
        classes.push(class);
        start = end;
    }
    assert(group_views(classes@) + Seq::<Seq<FieldView>>::empty() =~= group_views(classes@));
    let root = slice_subrange(fields, 0, first);
    assert(field_views(root@) =~= all.take(first as int));
    Ok((root, classes))
}

// --- keys ------------------------------------------------------------------------

/// What goes into the last derivation: the password, stretched first where
/// the root carries both the salt and the rounds for that.
pub open spec fn password_material(root: Seq<FieldView>, password: Seq<u8>) -> Seq<u8> {
    match (find_field(root, DPSL@), find_u32(root, DPIC@)) {
        (Some(salt), Some(rounds)) => pbkdf2_hmac_sha256(password, salt, rounds),
        _ => password,
    }
}

/// The key that unwraps the class keys.
pub open spec fn root_key(root: Seq<FieldView>, password: Seq<u8>) -> Result<Seq<u8>, ErrorView> {
    match (find_field(root, SALT@), find_u32(root, ITER@)) {
        (None, _) => Err(ErrorView::Other("BackupKeyBag root is missing SALT"@)),
        (_, None) => Err(ErrorView::Other("BackupKeyBag root is missing ITER"@)),
        (Some(salt), Some(rounds)) => Ok(
            pbkdf2_hmac_sha1(password_material(root, password), salt, rounds),
        ),
    }
}

/// A class that the password can recover: its number and its wrapped key.
pub open spec fn wrapped_by_password(class: Seq<FieldView>) -> Option<(u32, Seq<u8>)> {
    match (find_u32(class, CLAS@), find_u32(class, WRAP@), find_field(class, WPKY@)) {
        (Some(id), Some(flags), Some(wrapped)) => if flags & WRAP_BY_PASSWORD != 0 && wrapped.len()
            == WRAPPED_KEY_LEN {
            Some((id, wrapped))
        } else {
            None
        },
        _ => None,
    }
}

/// What is said when a class key does not unwrap.
pub open spec fn class_refused(id: u32) -> ErrorView {
    ErrorView::Other(
        "could not unwrap protection class "@ + decimal(id as nat)
            + " — wrong backup password?"@,
    )
}

/// The class keys recovered from `classes` one after the other, on top of
/// `known`: the first that does not unwrap ends it.
pub open spec fn recovered_onto(
    known: Map<u32, Seq<u8>>,
    classes: Seq<Seq<FieldView>>,
    key: Seq<u8>,
) -> Result<Map<u32, Seq<u8>>, ErrorView>
    decreases classes.len(),
{
    if classes.len() == 0 {
        Ok(known)
    } else {
        match wrapped_by_password(classes[0]) {
            None => recovered_onto(known, classes.skip(1), key),
            Some((id, wrapped)) => match aes_kw_unwrapped(key, wrapped) {
                None => Err(class_refused(id)),
                Some(k) => recovered_onto(known.insert(id, k), classes.skip(1), key),
            },
        }
    }
}

/// The class keys that a password recovers from a raw keybag.
pub open spec fn unlocked(raw: Seq<u8>, password: Seq<u8>) -> Result<
    Map<u32, Seq<u8>>,
    ErrorView,
> {
    match parsed_fields(raw) {
        Err(e) => Err(e),
        Ok(fields) => {
            let first = first_tagged(fields, CLAS@) as int;
            if first == fields.len() {
                Err(ErrorView::Other("BackupKeyBag has no protection classes"@))
            } else {
                match root_key(fields.take(first), password) {
                    Err(e) => Err(e),
                    Ok(key) => match recovered_onto(
                        Map::empty(),
                        split_classes(fields.skip(first)),
                        key,
                    ) {
                        Err(e) => Err(e),
                        Ok(keys) => if keys.len() == 0 {
                            Err(
                                ErrorView::Other(
                                    "no protection class keys could be unwrapped — wrong backup password?"@,
                                ),
                            )
                        } else {
                            Ok(keys)
                        },
                    },
                }
            }
        },
    }
}

/// Derives the key that unwraps the class keys.
pub fn derive_root_key(root: &[TlvField], password: &[u8]) -> (r: Result<[u8; 32], CradleError>)
    ensures
        viewed(r) == root_key(field_views(root@), password@),
{
    let salt = match field_bytes(root, &SALT) {
        Some(salt) => salt,
        None => return Err(CradleError::Other("BackupKeyBag root is missing SALT".to_owned())),
    };
    let rounds: u32 = match field_u32(root, &ITER) {
        Some(rounds) => rounds,
        None => return Err(CradleError::Other("BackupKeyBag root is missing ITER".to_owned())),
    };
    match (field_bytes(root, &DPSL), field_u32(root, &DPIC)) {
        (Some(first_salt), Some(first_rounds)) => {
            let stretched = derive_sha256(password, first_salt, first_rounds);
            Ok(derive_sha1(stretched.as_slice(), salt, rounds))
        },
        _ => Ok(derive_sha1(password, salt, rounds)),
    }
}

/// The keys of a map of class keys, as sequences of bytes.
pub open spec fn key_views(m: Map<u32, [u8; 32]>) -> Map<u32, Seq<u8>> {
    m.map_values(|k: [u8; 32]| k@)
}

/// Takes in what unwrapping the key of class `id` gave: a recovered key is
/// kept, and replaces one kept for that class before.
pub fn keep_class_key(
    keys: &mut HashMap<u32, [u8; 32]>,
    id: u32,
    unwrapped: Option<[u8; 32]>,
) -> (r: Result<(), CradleError>)
    ensures
        match unwrapped {
            Some(k) => r is Ok && key_views(final(keys)@) == key_views(old(keys)@).insert(id, k@),
            None => r matches Err(e) && e@ == class_refused(id) && final(keys)@ == old(keys)@,
        },
{
    match unwrapped {
        Some(k) => {
            keys.insert(id, k);
            assert(key_views(keys@) =~= key_views(old(keys)@).insert(id, k@));
            Ok(())
        },
        None => Err(
            CradleError::Other(
                "could not unwrap protection class ".to_owned().concat(
                    decimal_text(id as u64).as_str(),
                ).concat(" — wrong backup password?"),
            ),
        ),
    }
}

/// Recovers every class key that is wrapped by the password.
pub fn recover_class_keys(classes: &Vec<&[TlvField]>, root_key: &[u8; 32]) -> (r: Result<
    HashMap<u32, [u8; 32]>,
    CradleError,
>)
    ensures
        match r {
            Ok(keys) => recovered_onto(Map::empty(), group_views(classes@), root_key@) == Ok::<
                _,
                ErrorView,
            >(key_views(keys@)),
            Err(e) => recovered_onto(Map::empty(), group_views(classes@), root_key@) == Err::<
                Map<u32, Seq<u8>>,
                _,
            >(e@),
        },
{
    let ghost all = group_views(classes@);
    let mut keys: HashMap<u32, [u8; 32]> = HashMap::new();
    let mut i: usize = 0;
    assert(key_views(keys@) =~= Map::empty());
    assert(all.skip(0) =~= all);
    while i < classes.len()
        invariant
            i <= classes@.len(),
            all == group_views(classes@),
            recovered_onto(Map::empty(), all, root_key@) == recovered_onto(
                key_views(keys@),
                all.skip(i as int),
                root_key@,
            ),
        decreases classes@.len() - i,
    {
        let class = classes[i];
        assert(all.skip(i as int)[0] == field_views(class@));
        assert(all.skip(i as int).skip(1) =~= all.skip(i + 1));
        if let (Some(id), Some(flags), Some(wrapped)) = (
            field_u32(class, &CLAS),
            field_u32(class, &WRAP),
            field_bytes(class, &WPKY),
        ) {
            if flags & WRAP_BY_PASSWORD != 0 && wrapped.len() == WRAPPED_KEY_LEN {
                let unwrapped = unwrap_key(root_key, wrapped);
                match keep_class_key(&mut keys, id, unwrapped) {
                    Ok(()) => {},
                    Err(e) => return Err(e),
                }
            }
        }
        i = i + 1;
    }
    Ok(keys)
}

// --- the unlocked keybag ------------------------------------------------------------

/// The class keys recovered from a backup's keybag.
#[derive(Debug)]
pub struct Keybag {
    pub classes: HashMap<u32, [u8; 32]>,
}

impl View for Keybag {
    type V = Map<u32, Seq<u8>>;

    open spec fn view(&self) -> Map<u32, Seq<u8>> {
        key_views(self.classes@)
    }
}

/// The class keys that a password recovers from a manifest's members.
pub open spec fn unlocked_manifest(
    manifest: Result<Seq<(Seq<char>, PlistView)>, Seq<char>>,
    password: Seq<u8>,
) -> Result<Map<u32, Seq<u8>>, ErrorView> {
    match manifest {
        Err(words) => Err(ErrorView::Other("could not read Manifest.plist: "@ + words)),
        Ok(members) => match bytes_member(members, "BackupKeyBag"@) {
            None => Err(ErrorView::Other("Manifest.plist has no BackupKeyBag"@)),
            Some(raw) => unlocked(raw, password),
        },
    }
}

/// The class that an item's wrapped key names.
pub open spec fn wrapped_class(wrapped_key: Seq<u8>) -> u32 {
    le_u32(wrapped_key.subrange(0, 4))
}

/// The key of the named class and the part of `wrapped_key` it unwraps, or why
/// there is none.
pub open spec fn unwrapping_of(keys: Map<u32, Seq<u8>>, wrapped_key: Seq<u8>) -> Result<
    (Seq<u8>, Seq<u8>),
    ErrorView,
> {
    if wrapped_key.len() != 4 + WRAPPED_KEY_LEN {
        Err(
            ErrorView::Other(
                "unexpected wrapped key length: "@ + decimal(wrapped_key.len()) + " bytes"@,
            ),
        )
    } else if !keys.contains_key(wrapped_class(wrapped_key)) {
        Err(
            ErrorView::Other(
                "no usable key for protection class "@ + decimal(
                    wrapped_class(wrapped_key) as nat,
                )
                    + " — this item isn't recoverable from the backup password alone"@,
            ),
        )
    } else {
        Ok((keys[wrapped_class(wrapped_key)], wrapped_key.skip(4)))
    }
}

/// What decrypting `data` with an unwrapped item key gives.
pub open spec fn decrypted_with(item_key: Option<Seq<u8>>, data: Seq<u8>) -> Result<
    Seq<u8>,
    ErrorView,
> {
    match item_key {
        None => Err(ErrorView::Other("could not unwrap file encryption key"@)),
        Some(key) => if data.len() == 0 || data.len() % 16 != 0 {
            Err(
                ErrorView::Other(
                    "ciphertext is not AES-block-aligned — truncated or corrupt"@,
                ),
            )
        } else {
            Ok(aes256_cbc_decrypted(key, seq![0u8; 16], data))
        },
    }
}

/// What decrypting `data` under `wrapped_key` gives.
pub open spec fn decrypted(keys: Map<u32, Seq<u8>>, data: Seq<u8>, wrapped_key: Seq<u8>) -> Result<
    Seq<u8>,
    ErrorView,
> {
    match unwrapping_of(keys, wrapped_key) {
        Err(e) => Err(e),
        Ok((class_key, wrapped)) => decrypted_with(aes_kw_unwrapped(class_key, wrapped), data),
    }
}

/// What came of decrypting a buffer in place: the plain bytes, or the error
/// with the buffer as it was.
pub open spec fn in_place(
    before: Seq<u8>,
    after: Seq<u8>,
    r: Result<(), CradleError>,
    expected: Result<Seq<u8>, ErrorView>,
) -> bool {
    match r {
        Ok(()) => expected == Ok::<_, ErrorView>(after) && after.len() == before.len(),
        Err(e) => expected == Err::<Seq<u8>, _>(e@) && after == before,
    }
}

/// Decrypts `data` in place with what unwrapping its item key gave.
pub fn decrypt_with(item_key: Option<[u8; 32]>, data: &mut [u8]) -> (r: Result<(), CradleError>)
    ensures
        in_place(
            old(data)@,
            final(data)@,
            r,
            decrypted_with(
                match item_key {
                    Some(k) => Some(k@),
                    None => None,
                },
                old(data)@,
            ),
        ),
{
    match item_key {
        None => Err(CradleError::Other("could not unwrap file encryption key".to_owned())),
        Some(key) => {
            if data.len() == 0 || data.len() % 16 != 0 {
                return Err(
                    CradleError::Other(
                        "ciphertext is not AES-block-aligned — truncated or corrupt".to_owned(),
                    ),
                );
            }
            let iv = [0u8; 16];
            assert(iv@ =~= seq![0u8; 16]);
            if decrypt_blocks(&key, &iv, data) {
                Ok(())
            } else {
                Err(CradleError::Other("AES-CBC decryption failed".to_owned()))
            }
        },
    }
}

impl Keybag {
    /// The keybag that holds `keys`: one with no key at all means that the
    /// password recovered nothing.
    pub fn from_keys(keys: HashMap<u32, [u8; 32]>) -> (r: Result<Keybag, CradleError>)
        ensures
            match r {
                Ok(keybag) => keys@.len() != 0 && keybag@ == key_views(keys@),
                Err(e) => keys@.len() == 0 && e@ == ErrorView::Other(
                    "no protection class keys could be unwrapped — wrong backup password?"@,
                ),
            },
    {
        if keys.len() == 0 {
            return Err(
                CradleError::Other(
                    "no protection class keys could be unwrapped — wrong backup password?".to_owned(),
                ),
            );
        }
        Ok(Keybag { classes: keys })
    }

    /// Recovers the class keys of a raw keybag with the backup password.
    pub fn unlock(raw_keybag: &[u8], password: &str) -> (r: Result<Keybag, CradleError>)
        ensures
            viewed(r) == unlocked(raw_keybag@, vstd::utf8::encode_utf8(password@)),
    {
        let fields = match read_fields(raw_keybag) {
            Ok(fields) => fields,
            Err(e) => return Err(e),
        };
        let (root, classes) = match root_and_classes(fields.as_slice()) {
            Ok(parts) => parts,
            Err(e) => return Err(e),
        };
        let root_key = match derive_root_key(root, password.as_bytes()) {
            Ok(key) => key,
            Err(e) => return Err(e),
        };
        let keys = match recover_class_keys(&classes, &root_key) {
            Ok(keys) => keys,
            Err(e) => return Err(e),
        };
        assert(key_views(keys@).dom() =~= keys@.dom());
        Keybag::from_keys(keys)
    }

    /// Recovers the class keys of a backup from what was read of its
    /// `Manifest.plist`.
    pub fn unlock_from_manifest(
        manifest: &Result<Vec<(String, PlistValue)>, String>,
        password: &str,
    ) -> (r: Result<Keybag, CradleError>)
        ensures
            viewed(r) == unlocked_manifest(
                members_view(*manifest),
                vstd::utf8::encode_utf8(password@),
            ),
    {
        let members = match manifest {
            Ok(members) => members,
            Err(words) => return Err(
                CradleError::Other(
                    "could not read Manifest.plist: ".to_owned().concat(words.as_str()),
                ),
            ),
        };
        match find_bytes(members, "BackupKeyBag") {
            Some(raw) => Keybag::unlock(raw, password),
            None => Err(CradleError::Other("Manifest.plist has no BackupKeyBag".to_owned())),
        }
    }

    /// Recovers the class keys of a backup from its `Manifest.plist`.
    pub fn unlock_from_backup_dir(manifest: &Result<&[u8], String>, password: &str) -> (r: Result<
        Keybag,
        CradleError,
    >)
        ensures
            viewed(r) == unlocked_manifest(
                file_members(file_view(*manifest)),
                vstd::utf8::encode_utf8(password@),
            ),
    {
        Keybag::unlock_from_manifest(&read_members(manifest), password)
    }

    /// The key of the class that `wrapped_key` names, and the part of
    /// `wrapped_key` which that key unwraps.
    pub fn unwrapping<'a>(&self, wrapped_key: &'a [u8]) -> (r: Result<
        ([u8; 32], &'a [u8]),
        CradleError,
    >)
        ensures
            match r {
                Ok((class_key, wrapped)) => unwrapping_of(self@, wrapped_key@) == Ok::<
                    _,
                    ErrorView,
                >((class_key@, wrapped@)),
                Err(e) => unwrapping_of(self@, wrapped_key@) == Err::<(Seq<u8>, Seq<u8>), _>(e@),
            },
    {
        if wrapped_key.len() != 4 + WRAPPED_KEY_LEN {
            return Err(
                CradleError::Other(
                    "unexpected wrapped key length: ".to_owned().concat(
                        decimal_text(wrapped_key.len() as u64).as_str(),
                    ).concat(" bytes"),
                ),
            );
        }
        let id = le_number(slice_subrange(wrapped_key, 0, 4));
        match self.classes.get(&id) {
            Some(key) => {
                let wrapped = slice_subrange(wrapped_key, 4, wrapped_key.len());
                assert(wrapped@ =~= wrapped_key@.skip(4));
                Ok((*key, wrapped))
            },
            None => Err(
                CradleError::Other(
                    "no usable key for protection class ".to_owned().concat(
                        decimal_text(id as u64).as_str(),
                    ).concat(" — this item isn't recoverable from the backup password alone"),
                ),
            ),
        }
    }

    /// Decrypts `data` in place: `wrapped_key` names a class and holds the
    /// item's own key, wrapped by the class key.
    pub fn decrypt(&self, data: &mut [u8], wrapped_key: &[u8]) -> (r: Result<(), CradleError>)
        ensures
            in_place(old(data)@, final(data)@, r, decrypted(self@, old(data)@, wrapped_key@)),
    {
        match self.unwrapping(wrapped_key) {
            Ok((class_key, wrapped)) => decrypt_with(unwrap_key(&class_key, wrapped), data),
            Err(e) => Err(e),
        }
    }
}

/// A keybag that unlocks holds at least one class key.
pub proof fn law_unlocked_is_not_empty(raw: Seq<u8>, password: Seq<u8>)
    requires
        unlocked(raw, password) is Ok,
    ensures
        unlocked(raw, password)->Ok_0.len() != 0,
{
}

// --- what holds of keybags --------------------------------------------------------------------

/// The field found is the first with its tag, and one is found just when there
/// is one.
pub proof fn law_first_field_is_found(f: Seq<FieldView>, tag: Seq<u8>)
    ensures
        find_field(f, tag) is None <==> forall|i: int|
            0 <= i < f.len() ==> (#[trigger] f[i]).tag != tag,
        forall|i: int|
            0 <= i < f.len() && (#[trigger] f[i]).tag == tag && (forall|j: int|
                0 <= j < i ==> (#[trigger] f[j]).tag != tag) ==> find_field(f, tag) == Some(
                f[i].value,
            ),
    decreases f.len(),
{
    if f.len() > 0 && f[0].tag != tag {
        let rest = f.skip(1);
        law_first_field_is_found(rest, tag);
        if find_field(rest, tag) is None {
            assert forall|i: int| 0 <= i < f.len() implies (#[trigger] f[i]).tag != tag by {
                if i > 0 {
                    assert(rest[i - 1].tag != tag);
                }
            }
        } else if forall|i: int| 0 <= i < f.len() ==> (#[trigger] f[i]).tag != tag {
            assert forall|i: int| 0 <= i < rest.len() implies (#[trigger] rest[i]).tag != tag by {
                assert(f[i + 1].tag != tag);
            }
        }
        assert forall|i: int|
            0 <= i < f.len() && (#[trigger] f[i]).tag == tag && (forall|j: int|
                0 <= j < i ==> (#[trigger] f[j]).tag != tag) implies find_field(f, tag) == Some(
            f[i].value,
        ) by {
            assert(rest[i - 1] == f[i]);
            assert forall|j: int| 0 <= j < i - 1 implies (#[trigger] rest[j]).tag != tag by {
                assert(f[j + 1].tag != tag);
            }
        }
    }
}

/// The numbers in a keybag are written most significant byte first, those in
/// front of a wrapped key least significant byte first: the same four bytes in
/// reverse spell the same number, and a single low byte stands last in the one
/// and first in the other.
pub proof fn law_byte_orders(a: u8, b: u8, c: u8, d: u8)
    ensures
        be_u32(seq![a, b, c, d]) == le_u32(seq![d, c, b, a]),
        be_u32(seq![0u8, 0, 0, a]) == a,
        le_u32(seq![a, 0u8, 0, 0]) == a,
        be_u32(seq![0u8, 0, a, b]) == 256 * a + b,
        be_u32(seq![a, b, c, d]) == 65536 * be_u32(seq![0u8, 0, a, b]) + be_u32(
            seq![0u8, 0, c, d],
        ),
{
}

/// A number is read from a field of four bytes only, and is the number they
/// spell.
pub proof fn law_field_numbers(f: Seq<FieldView>, tag: Seq<u8>)
    ensures
        match find_field(f, tag) {
            Some(b) => find_u32(f, tag) == (if b.len() == 4 {
                Some(
                    (b[0] * 0x100_0000 + b[1] * 0x1_0000 + b[2] * 0x100 + b[3]) as u32,
                )
            } else {
                None
            }),
            None => find_u32(f, tag) is None,
        },
{
}

/// Whether a class carries its number `id`, flags that say its key is wrapped by
/// the password, and the forty bytes `wrapped` of that key.
#[verifier::opaque]
pub open spec fn carries(class: Seq<FieldView>, id: u32, wrapped: Seq<u8>) -> bool {
    &&& find_u32(class, CLAS@) == Some(id)
    &&& find_u32(class, WRAP@) matches Some(flags) && (flags / 2) % 2 == 1
    &&& find_field(class, WPKY@) == Some(wrapped)
    &&& wrapped.len() == 40
}

/// A class that the password can recover carries all that this takes.
proof fn lemma_carries(class: Seq<FieldView>, id: u32, wrapped: Seq<u8>)
    ensures
        wrapped_by_password(class) == Some((id, wrapped)) <==> carries(class, id, wrapped),
{
    reveal(carries);
    if let Some(flags) = find_u32(class, WRAP@) {
        assert(flags & 2 != 0 <==> (flags / 2) % 2 == 1) by (bit_vector);
    }
}

/// What is recovered on top of known keys: each class has its key, the last of
/// its number counts, and nothing else is there but what was known.
#[verifier::rlimit(60)]
#[verifier::spinoff_prover]
proof fn lemma_recovered(known: Map<u32, Seq<u8>>, classes: Seq<Seq<FieldView>>, key: Seq<u8>)
    ensures
        recovered_onto(known, classes, key) matches Ok(keys) ==> {
            &&& forall|i: int, id: u32, w: Seq<u8>|
                0 <= i < classes.len() && #[trigger] carries(classes[i], id, w) ==> {
                    &&& keys.contains_key(id)
                    &&& aes_kw_unwrapped(key, w) is Some
                    &&& (forall|j: int, v: Seq<u8>|
                        i < j < classes.len() ==> !#[trigger] carries(classes[j], id, v))
                        ==> aes_kw_unwrapped(key, w) == Some(keys[id])
                }
            &&& forall|id: u32|
                known.contains_key(id) ==> #[trigger] keys.contains_key(id)
            &&& forall|id: u32|
                #[trigger] keys.contains_key(id) && (forall|j: int, v: Seq<u8>|
                    0 <= j < classes.len() ==> !#[trigger] carries(classes[j], id, v))
                    ==> known.contains_key(id) && keys[id] == known[id]
        },
        recovered_onto(known, classes, key) matches Err(e) ==> exists|i: int, id: u32, w: Seq<u8>|
            {
                &&& 0 <= i < classes.len()
                &&& #[trigger] carries(classes[i], id, w)
                &&& aes_kw_unwrapped(key, w) is None
                &&& e == class_refused(id)
                &&& forall|j: int, other: u32, v: Seq<u8>|
                    0 <= j < i && #[trigger] carries(classes[j], other, v) ==> aes_kw_unwrapped(
                        key,
                        v,
                    ) is Some
            },
    decreases classes.len(),
{
    if classes.len() > 0 {
        let rest = classes.skip(1);
        let here = wrapped_by_password(classes[0]);
        assert forall|id: u32, w: Seq<u8>| #[trigger] carries(classes[0], id, w) implies here
            == Some((id, w)) by {
            lemma_carries(classes[0], id, w);
        }
        assert(forall|j: int| 0 <= j < rest.len() ==> #[trigger] rest[j] == classes[j + 1]);
        let next = match here {
            None => known,
            Some((id, w)) => match aes_kw_unwrapped(key, w) {
                None => known,
                Some(k) => known.insert(id, k),
            },
        };
        if let Some((id, w)) = here {
            lemma_carries(classes[0], id, w);
        }
        if here matches Some((id, w)) && aes_kw_unwrapped(key, w) is None {
        } else {
            lemma_recovered(next, rest, key);
            assert(recovered_onto(known, classes, key) == recovered_onto(next, rest, key));
            if let Ok(keys) = recovered_onto(known, classes, key) {
                assert forall|i: int, id: u32, w: Seq<u8>|
                    0 <= i < classes.len() && #[trigger] carries(classes[i], id, w) implies {
                    &&& keys.contains_key(id)
                    &&& aes_kw_unwrapped(key, w) is Some
                    &&& (forall|j: int, v: Seq<u8>|
                        i < j < classes.len() ==> !#[trigger] carries(classes[j], id, v))
                        ==> aes_kw_unwrapped(key, w) == Some(keys[id])
                } by {
                    if i > 0 {
                        assert(carries(rest[i - 1], id, w));
                        if forall|j: int, v: Seq<u8>|
                            i < j < classes.len() ==> !#[trigger] carries(classes[j], id, v) {
                            assert forall|j: int, v: Seq<u8>|
                                i - 1 < j < rest.len() implies !#[trigger] carries(
                                rest[j],
                                id,
                                v,
                            ) by {
                                assert(!carries(classes[j + 1], id, v));
                            }
                        }
                    } else {
                        assert(next.contains_key(id));
                        if forall|j: int, v: Seq<u8>|
                            i < j < classes.len() ==> !#[trigger] carries(classes[j], id, v) {
                            assert forall|j: int, v: Seq<u8>|
                                0 <= j < rest.len() implies !#[trigger] carries(
                                rest[j],
                                id,
                                v,
                            ) by {
                                assert(!carries(classes[j + 1], id, v));
                            }
                        }
                    }
                }
                assert forall|id: u32| known.contains_key(id) implies #[trigger] keys.contains_key(
                    id,
                ) by {
                    assert(next.contains_key(id));
                }
                assert forall|id: u32|
                    #[trigger] keys.contains_key(id) && (forall|j: int, v: Seq<u8>|
                        0 <= j < classes.len() ==> !#[trigger] carries(classes[j], id, v)) implies
                    known.contains_key(id) && keys[id] == known[id] by {
                    assert forall|j: int, v: Seq<u8>| 0 <= j < rest.len() implies !#[trigger] carries(
                        rest[j],
                        id,
                        v,
                    ) by {
                        assert(!carries(classes[j + 1], id, v));
                    }
                    if let Some((other, w)) = here {
                        assert(!carries(classes[0], id, w));
                        lemma_carries(classes[0], other, w);
                    }
                }
            } else if let Err(e) = recovered_onto(known, classes, key) {
                let (i, id, w) = choose|i: int, id: u32, w: Seq<u8>|
                    {
                        &&& 0 <= i < rest.len()
                        &&& #[trigger] carries(rest[i], id, w)
                        &&& aes_kw_unwrapped(key, w) is None
                        &&& e == class_refused(id)
                        &&& forall|j: int, other: u32, v: Seq<u8>|
                            0 <= j < i && #[trigger] carries(rest[j], other, v)
                                ==> aes_kw_unwrapped(key, v) is Some
                    };
                assert(carries(classes[i + 1], id, w));
                assert forall|j: int, other: u32, v: Seq<u8>|
                    0 <= j < i + 1 && #[trigger] carries(classes[j], other, v) implies
                    aes_kw_unwrapped(key, v) is Some by {
                    if j > 0 {
                        assert(carries(rest[j - 1], other, v));
                    }
                }
            }
        }
    }
}

/// Every class whose key is wrapped by the password has its key recovered, and no
/// other: each class that carries its number, the password flag and forty bytes
/// of wrapped key is there, with what unwrapping gives for the last class of that
/// number. Where one of them does not unwrap, the first such is named instead.
pub proof fn law_every_class_key_is_recovered(classes: Seq<Seq<FieldView>>, key: Seq<u8>)
    ensures
        match recovered_onto(Map::empty(), classes, key) {
            Ok(keys) => {
                &&& forall|i: int, id: u32, w: Seq<u8>|
                    0 <= i < classes.len() && #[trigger] carries(classes[i], id, w) ==> {
                        &&& keys.contains_key(id)
                        &&& aes_kw_unwrapped(key, w) is Some
                        &&& (forall|j: int, v: Seq<u8>|
                            i < j < classes.len() ==> !#[trigger] carries(classes[j], id, v))
                            ==> aes_kw_unwrapped(key, w) == Some(keys[id])
                    }
                &&& forall|id: u32|
                    #[trigger] keys.contains_key(id) ==> exists|j: int, v: Seq<u8>|
                        0 <= j < classes.len() && #[trigger] carries(classes[j], id, v)
            },
            Err(e) => exists|i: int, id: u32, w: Seq<u8>|
                {
                    &&& 0 <= i < classes.len()
                    &&& #[trigger] carries(classes[i], id, w)
                    &&& aes_kw_unwrapped(key, w) is None
                    &&& e == ErrorView::Other(
                        "could not unwrap protection class "@ + decimal(id as nat)
                            + " — wrong backup password?"@,
                    )
                    &&& forall|j: int, other: u32, v: Seq<u8>|
                        0 <= j < i && #[trigger] carries(classes[j], other, v)
                            ==> aes_kw_unwrapped(key, v) is Some
                },
        },
{
    lemma_recovered(Map::empty(), classes, key);
    if let Ok(keys) = recovered_onto(Map::empty(), classes, key) {
        assert forall|id: u32| #[trigger] keys.contains_key(id) implies exists|
            j: int,
            v: Seq<u8>,
        |
            0 <= j < classes.len() && #[trigger] carries(classes[j], id, v) by {
            if forall|j: int, v: Seq<u8>|
                0 <= j < classes.len() ==> !#[trigger] carries(classes[j], id, v) {
                assert(Map::<u32, Seq<u8>>::empty().contains_key(id));
            }
        }
    }
}

/// Whether the fields from `s` to `e` are those of one class: they start with a
/// class's tag, and go on up to the next, or to the end.
pub open spec fn is_class(f: Seq<FieldView>, s: int, e: int) -> bool {
    &&& 0 <= s < e <= f.len()
    &&& f[s].tag == CLAS@
    &&& e == f.len() || f[e].tag == CLAS@
    &&& forall|i: int| s < i < e ==> (#[trigger] f[i]).tag != CLAS@
}

/// Where the first tagged field is.
proof fn lemma_first_tagged(f: Seq<FieldView>, tag: Seq<u8>)
    ensures
        first_tagged(f, tag) <= f.len(),
        first_tagged(f, tag) < f.len() ==> f[first_tagged(f, tag) as int].tag == tag,
        forall|i: int| 0 <= i < first_tagged(f, tag) ==> (#[trigger] f[i]).tag != tag,
    decreases f.len(),
{
    if f.len() != 0 && f[0].tag != tag {
        let rest = f.skip(1);
        lemma_first_tagged(rest, tag);
        assert forall|i: int| 0 <= i < first_tagged(f, tag) implies (#[trigger] f[i]).tag
            != tag by {
            if i > 0 {
                assert(rest[i - 1].tag != tag);
            }
        }
    }
}

/// Whether the class at `k` has the fields from where it starts up to where the next one
/// does, or to the end.
pub open spec fn reaches_the_next(f: Seq<FieldView>, starts: Seq<int>, k: int) -> bool {
    let e = if k + 1 < starts.len() {
        starts[k + 1]
    } else {
        f.len() as int
    };
    is_class(f, starts[k], e) && split_classes(f)[k] == f.subrange(starts[k], e)
}

/// Where each class starts: at each class's tag and nowhere else, in order; and
/// each class's fields go from there up to where the next one starts.
#[verifier::spinoff_prover]
pub proof fn law_classes_are_cut_at_their_tags(f: Seq<FieldView>) -> (starts: Seq<int>)
    requires
        f.len() > 0 ==> f[0].tag == CLAS@,
    ensures
        starts.len() == split_classes(f).len(),
        forall|k: int| 0 <= k < starts.len() ==> 0 <= #[trigger] starts[k] < f.len(),
        forall|k: int, l: int|
            0 <= k < l < starts.len() ==> #[trigger] starts[k] < #[trigger] starts[l],
        forall|k: int| 0 <= k < starts.len() ==> #[trigger] reaches_the_next(f, starts, k),
        forall|i: int|
            0 <= i < f.len() && (#[trigger] f[i]).tag == CLAS@ ==> starts.contains(i),
    decreases f.len(),
{
    if f.len() == 0 {
        seq![]
    } else {
        let n = class_length(f) as int;
        lemma_first_tagged(f.skip(1), CLAS@);
        assert(forall|i: int| 1 <= i < f.len() ==> #[trigger] f[i] == f.skip(1)[i - 1]);
        let rest = f.skip(n);
        assert(forall|i: int| n <= i < f.len() ==> #[trigger] f[i] == rest[i - n]);
        let later = law_classes_are_cut_at_their_tags(rest);
        let starts = seq![0int] + later.map_values(|i: int| i + n);
        assert(starts.len() == later.len() + 1);
        assert forall|k: int| 0 <= k < starts.len() implies #[trigger] reaches_the_next(
            f,
            starts,
            k,
        ) by {
            if k == 0 {
                if later.len() > 0 {
                    assert(rest[0].tag == CLAS@);
                    assert(later.contains(0));
                    let z = choose|z: int| 0 <= z < later.len() && later[z] == 0;
                    assert(later[0] == 0) by {
                        if z > 0 {
                            assert(later[0] < later[z]);
                        }
                    }
                } else {
                    if rest.len() > 0 {
                        assert(later.contains(0));
                    }
                }
                assert(f.take(n) =~= f.subrange(0, n));
            } else {
                let e = if k < later.len() {
                    later[k]
                } else {
                    rest.len() as int
                };
                assert(reaches_the_next(rest, later, k - 1));
                assert(is_class(rest, later[k - 1], e));
                assert(rest.subrange(later[k - 1], e) =~= f.subrange(later[k - 1] + n, e + n));
                assert forall|i: int| later[k - 1] + n < i < e + n implies (#[trigger] f[i]).tag
                    != CLAS@ by {
                    assert(rest[i - n].tag != CLAS@);
                }
            }
        }
        assert forall|i: int| 0 <= i < f.len() && (#[trigger] f[i]).tag == CLAS@ implies
            starts.contains(i) by {
            if i == 0 {
                assert(starts[0] == 0);
            } else {
                assert(i >= n);
                assert(rest[i - n].tag == CLAS@);
                assert(later.contains(i - n));
                let k = choose|k: int| 0 <= k < later.len() && later[k] == i - n;
                assert(starts[k + 1] == i);
            }
        }
        starts
    }
}

/// What the key that unwraps the class keys is derived from: the first `SALT`
/// and `ITER` of the root, over the password itself, or over the password
/// stretched by `DPSL` and `DPIC` where both are there.
pub proof fn law_root_key(root: Seq<FieldView>, password: Seq<u8>, salt: Seq<u8>, rounds: u32)
    requires
        find_field(root, seq![0x53u8, 0x41, 0x4c, 0x54]) == Some(salt),
        find_u32(root, seq![0x49u8, 0x54, 0x45, 0x52]) == Some(rounds),
    ensures
        forall|first: Seq<u8>, n: u32|
            find_field(root, seq![0x44u8, 0x50, 0x53, 0x4c]) == Some(first) && find_u32(
                root,
                seq![0x44u8, 0x50, 0x49, 0x43],
            ) == Some(n) ==> root_key(root, password) == Ok::<_, ErrorView>(
                pbkdf2_hmac_sha1(#[trigger] pbkdf2_hmac_sha256(password, first, n), salt, rounds),
            ),
        find_field(root, seq![0x44u8, 0x50, 0x53, 0x4c]) is None || find_u32(
            root,
            seq![0x44u8, 0x50, 0x49, 0x43],
        ) is None ==> root_key(root, password) == Ok::<_, ErrorView>(
            pbkdf2_hmac_sha1(password, salt, rounds),
        ),
{
    assert(SALT@ =~= seq![0x53u8, 0x41, 0x4c, 0x54]);
    assert(ITER@ =~= seq![0x49u8, 0x54, 0x45, 0x52]);
    assert(DPSL@ =~= seq![0x44u8, 0x50, 0x53, 0x4c]);
    assert(DPIC@ =~= seq![0x44u8, 0x50, 0x49, 0x43]);
}

/// No key is derived where the root has no salt, or no number of rounds.
pub proof fn law_no_root_key(root: Seq<FieldView>, password: Seq<u8>)
    ensures
        find_field(root, SALT@) is None || find_u32(root, ITER@) is None <==> root_key(
            root,
            password,
        ) is Err,
{
}

/// Where among all the fields the classes behind the first `first` stand: each of
/// them, and nothing else, in order.
#[verifier::spinoff_prover]
proof fn lemma_class_spans(fields: Seq<FieldView>, first: int) -> (spans: Seq<(int, int)>)
    requires
        0 <= first < fields.len(),
        fields[first].tag == CLAS@,
        forall|i: int| 0 <= i < first ==> (#[trigger] fields[i]).tag != CLAS@,
    ensures
        first_tagged(fields, CLAS@) == first,
        spans.len() == split_classes(fields.skip(first)).len(),
        forall|k: int|
            0 <= k < spans.len() ==> is_class(fields, (#[trigger] spans[k]).0, spans[k].1)
                && split_classes(fields.skip(first))[k] == fields.subrange(
                spans[k].0,
                spans[k].1,
            ),
        forall|j: int, k: int| 0 <= j < k < spans.len() ==> #[trigger] spans[j].0 < #[trigger] spans[k].0,
        forall|s: int, e: int| #[trigger] is_class(fields, s, e) ==> spans.contains((s, e)),
{
    lemma_first_tagged(fields, CLAS@);
    assert(first_tagged(fields, CLAS@) == first) by {
        let at = first_tagged(fields, CLAS@) as int;
        if at < first {
            assert(fields[at].tag != CLAS@);
        } else if at > first {
            assert(fields[first].tag != CLAS@);
        }
    }
    let f = fields.skip(first);
    let classes = split_classes(f);
    let starts = law_classes_are_cut_at_their_tags(f);
    let spans = Seq::new(
        starts.len(),
        |k: int|
            (
                starts[k] + first,
                if k + 1 < starts.len() {
                    starts[k + 1] + first
                } else {
                    fields.len() as int
                },
            ),
    );
    assert forall|k: int| 0 <= k < spans.len() implies is_class(
        fields,
        (#[trigger] spans[k]).0,
        spans[k].1,
    ) && classes[k] == fields.subrange(spans[k].0, spans[k].1) by {
        let s = spans[k].0;
        let e = spans[k].1;
        assert(reaches_the_next(f, starts, k));
        assert(is_class(f, starts[k], e - first));
        assert(f[s - first] == fields[s]);
        if e < fields.len() {
            assert(f[e - first] == fields[e]);
        }
        assert forall|i: int| s < i < e implies (#[trigger] fields[i]).tag != CLAS@ by {
            assert(f[i - first].tag != CLAS@);
        }
        assert(f.subrange(s - first, e - first) =~= fields.subrange(s, e));
    }
    assert forall|s: int, e: int| #[trigger] is_class(fields, s, e) implies spans.contains(
        (s, e),
    ) by {
        assert(s >= first);
        assert(f[s - first].tag == CLAS@);
        assert(starts.contains(s - first));
        let k = choose|k: int| 0 <= k < starts.len() && starts[k] == s - first;
        let x = spans[k].1;
        assert(spans[k].0 == s);
        assert(is_class(fields, s, x));
        assert(x == e) by {
            if x < e {
                assert(fields[x].tag != CLAS@);
            } else if x > e {
                assert(fields[e].tag != CLAS@);
            }
        }
        assert(spans[k] == (s, e));
    }
    spans
}

/// An unlocked keybag holds a key for every class that carries its number, the
/// password flag and a wrapped key, wherever in the bytes it stands: what the key
/// derived from the fields in front of the first class unwraps, of the last class
/// with that number.
#[verifier::rlimit(60)]
#[verifier::spinoff_prover]
pub proof fn law_unlocked_holds_every_class(
    raw: Seq<u8>,
    password: Seq<u8>,
    fields: Seq<FieldView>,
    first: int,
    keys: Map<u32, Seq<u8>>,
)
    requires
        parsed_fields(raw) == Ok::<_, ErrorView>(fields),
        unlocked(raw, password) == Ok::<_, ErrorView>(keys),
        0 <= first < fields.len(),
        fields[first].tag == CLAS@,
        forall|i: int| 0 <= i < first ==> (#[trigger] fields[i]).tag != CLAS@,
    ensures
        root_key(fields.take(first), password) is Ok,
        forall|s: int, e: int, id: u32, w: Seq<u8>|
            #[trigger] is_class(fields, s, e) && #[trigger] carries(
                fields.subrange(s, e),
                id,
                w,
            ) ==> {
                &&& keys.contains_key(id)
                &&& (forall|t: int, u: int, v: Seq<u8>|
                    s < t && #[trigger] is_class(fields, t, u) ==> !#[trigger] carries(
                        fields.subrange(t, u),
                        id,
                        v,
                    )) ==> aes_kw_unwrapped(root_key(fields.take(first), password)->Ok_0, w)
                    == Some(keys[id])
            },
        forall|id: u32| #[trigger]
            keys.contains_key(id) ==> exists|s: int, e: int, v: Seq<u8>| #[trigger]
                is_class(fields, s, e) && #[trigger] carries(fields.subrange(s, e), id, v),
{
    let spans = lemma_class_spans(fields, first);
    let classes = split_classes(fields.skip(first));
    let key = root_key(fields.take(first), password)->Ok_0;
    law_every_class_key_is_recovered(classes, key);
    assert forall|s: int, e: int, id: u32, w: Seq<u8>|
        #[trigger] is_class(fields, s, e) && #[trigger] carries(
            fields.subrange(s, e),
            id,
            w,
        ) implies {
        &&& keys.contains_key(id)
        &&& (forall|t: int, u: int, v: Seq<u8>|
            s < t && #[trigger] is_class(fields, t, u) ==> !#[trigger] carries(
                fields.subrange(t, u),
                id,
                v,
            )) ==> aes_kw_unwrapped(key, w) == Some(keys[id])
    } by {
        assert(spans.contains((s, e)));
        let k = choose|k: int| 0 <= k < spans.len() && spans[k] == (s, e);
        assert(carries(classes[k], id, w));
        if forall|t: int, u: int, v: Seq<u8>|
            s < t && #[trigger] is_class(fields, t, u) ==> !#[trigger] carries(
                fields.subrange(t, u),
                id,
                v,
            ) {
            assert forall|j: int, v: Seq<u8>| k < j < classes.len() implies !#[trigger] carries(
                classes[j],
                id,
                v,
            ) by {
                assert(spans[k].0 < spans[j].0);
                assert(is_class(fields, spans[j].0, spans[j].1));
            }
        }
    }
    assert forall|id: u32| #[trigger] keys.contains_key(id) implies exists|
        s: int,
        e: int,
        v: Seq<u8>,
    | #[trigger] is_class(fields, s, e) && #[trigger] carries(fields.subrange(s, e), id, v) by {
        let (j, v) = choose|j: int, v: Seq<u8>|
            0 <= j < classes.len() && #[trigger] carries(classes[j], id, v);
        assert(is_class(fields, spans[j].0, spans[j].1));
        assert(carries(fields.subrange(spans[j].0, spans[j].1), id, v));
    }
}

/// A file is decrypted with the key of the class that the first four bytes of its
/// wrapped key number, least significant first, and the key that this unwraps
/// from the forty behind them; it keeps its length. It is refused where there is
/// no such class or key, or where it is not made of whole blocks.
#[verifier::rlimit(60)]
#[verifier::spinoff_prover]
pub proof fn law_decrypts_with_the_named_class(
    keys: Map<u32, Seq<u8>>,
    data: Seq<u8>,
    wrapped_key: Seq<u8>,
)
    ensures
        ({
            let id = (wrapped_key[0] + 0x100 * wrapped_key[1] + 0x1_0000 * wrapped_key[2]
                + 0x100_0000 * wrapped_key[3]) as u32;
            let item = aes_kw_unwrapped(keys[id], wrapped_key.subrange(4, 44));
            &&& decrypted(keys, data, wrapped_key) is Ok <==> wrapped_key.len() == 44
                && keys.contains_key(id) && item is Some && data.len() > 0 && data.len() % 16 == 0
            &&& decrypted(keys, data, wrapped_key) matches Ok(plain) ==> plain
                == aes256_cbc_decrypted(item->0, Seq::new(16, |i: int| 0u8), data)
        }),
{
    if wrapped_key.len() == 44 {
        assert(wrapped_key.skip(4) =~= wrapped_key.subrange(4, 44));
        let four = wrapped_key.subrange(0, 4);
        assert(four[0] == wrapped_key[0] && four[1] == wrapped_key[1] && four[2] == wrapped_key[2]
            && four[3] == wrapped_key[3]);
    }
    assert(seq![0u8; 16] =~= Seq::new(16, |i: int| 0u8));
}

/// The tags of a class: `CLAS`, `WRAP` and `WPKY`.
pub proof fn law_class_tags()
    ensures
        CLAS@ == seq![0x43u8, 0x4c, 0x41, 0x53],
        WRAP@ == seq![0x57u8, 0x52, 0x41, 0x50],
        WPKY@ == seq![0x57u8, 0x50, 0x4b, 0x59],
{
    assert(CLAS@ =~= seq![0x43u8, 0x4c, 0x41, 0x53]);
    assert(WRAP@ =~= seq![0x57u8, 0x52, 0x41, 0x50]);
    assert(WPKY@ =~= seq![0x57u8, 0x50, 0x4b, 0x59]);
}

/// What is missing in front of the classes is told by its name.
pub proof fn law_missing_in_the_root(root: Seq<FieldView>, password: Seq<u8>)
    ensures
        find_field(root, SALT@) is None ==> root_key(root, password) == Err::<Seq<u8>, _>(
            ErrorView::Other("BackupKeyBag root is missing SALT"@),
        ),
        find_field(root, SALT@) is Some && find_u32(root, ITER@) is None ==> root_key(
            root,
            password,
        ) == Err::<Seq<u8>, _>(ErrorView::Other("BackupKeyBag root is missing ITER"@)),
{
}

/// Bytes that end within a field are refused: within its header, or within its value.
pub proof fn law_cut_fields_are_refused(raw: Seq<u8>)
    ensures
        0 < raw.len() < 8 ==> parsed_fields(raw) == Err::<Seq<FieldView>, _>(
            ErrorView::Other("BackupKeyBag ends mid-field (short header)"@),
        ),
        raw.len() >= 8 && raw.len() - 8 < 0x100_0000 * raw[4] + 0x1_0000 * raw[5] + 0x100 * raw[6]
            + raw[7] ==> parsed_fields(raw) == Err::<Seq<FieldView>, _>(
            ErrorView::Other("BackupKeyBag field runs past end of blob"@),
        ),
        parsed_fields(seq![]) == Ok::<_, ErrorView>(Seq::<FieldView>::empty()),
{
    if raw.len() >= 8 {
        let four = raw.subrange(4, 8);
        assert(four[0] == raw[4] && four[1] == raw[5] && four[2] == raw[6] && four[3] == raw[7]);
        law_byte_orders(four[0], four[1], four[2], four[3]);
        assert(four =~= seq![four[0], four[1], four[2], four[3]]);
    }
}

/// A keybag without a class is refused, and so is one of which no key could be had; one
/// that is unlocked has a key.
pub proof fn law_refused_keybags(raw: Seq<u8>, password: Seq<u8>, fields: Seq<FieldView>)
    requires
        parsed_fields(raw) == Ok::<_, ErrorView>(fields),
    ensures
        (forall|i: int| 0 <= i < fields.len() ==> (#[trigger] fields[i]).tag != CLAS@)
            ==> unlocked(raw, password) == Err::<Map<u32, Seq<u8>>, _>(
            ErrorView::Other("BackupKeyBag has no protection classes"@),
        ),
        unlocked(raw, password) matches Ok(keys) ==> keys.len() > 0,
{
    lemma_first_tagged(fields, CLAS@);
}

/// The keybag is that of the manifest, under its name.
pub proof fn law_keybag_of_the_manifest(
    members: Seq<(Seq<char>, PlistView)>,
    words: Seq<char>,
    password: Seq<u8>,
)
    ensures
        unlocked_manifest(Err(words), password) == Err::<Map<u32, Seq<u8>>, _>(
            ErrorView::Other("could not read Manifest.plist: "@ + words),
        ),
        bytes_member(members, "BackupKeyBag"@) is None ==> unlocked_manifest(
            Ok(members),
            password,
        ) == Err::<Map<u32, Seq<u8>>, _>(
            ErrorView::Other("Manifest.plist has no BackupKeyBag"@),
        ),
        bytes_member(members, "BackupKeyBag"@) matches Some(raw) ==> unlocked_manifest(
            Ok(members),
            password,
        ) == unlocked(raw, password),
{
}

/// What is not decrypted is told: a wrapped key of the wrong length first, then a class
/// without a key, then a key that does not unwrap, then a file that is not whole blocks.
pub proof fn law_refused_decryptions(
    keys: Map<u32, Seq<u8>>,
    data: Seq<u8>,
    wrapped_key: Seq<u8>,
)
    ensures
        wrapped_key.len() != 44 ==> decrypted(keys, data, wrapped_key) == Err::<Seq<u8>, _>(
            ErrorView::Other(
                "unexpected wrapped key length: "@ + decimal(wrapped_key.len()) + " bytes"@,
            ),
        ),
        wrapped_key.len() == 44 && !keys.contains_key(wrapped_class(wrapped_key)) ==> decrypted(
            keys,
            data,
            wrapped_key,
        ) == Err::<Seq<u8>, _>(
            ErrorView::Other(
                "no usable key for protection class "@ + decimal(
                    wrapped_class(wrapped_key) as nat,
                ) + " — this item isn't recoverable from the backup password alone"@,
            ),
        ),
        wrapped_key.len() == 44 && keys.contains_key(wrapped_class(wrapped_key))
            && aes_kw_unwrapped(keys[wrapped_class(wrapped_key)], wrapped_key.skip(4)) is None
            ==> decrypted(keys, data, wrapped_key) == Err::<Seq<u8>, _>(
            ErrorView::Other("could not unwrap file encryption key"@),
        ),
        wrapped_key.len() == 44 && keys.contains_key(wrapped_class(wrapped_key))
            && aes_kw_unwrapped(keys[wrapped_class(wrapped_key)], wrapped_key.skip(4)) is Some && (
        data.len() == 0 || data.len() % 16 != 0) ==> decrypted(keys, data, wrapped_key) == Err::<
            Seq<u8>,
            _,
        >(ErrorView::Other("ciphertext is not AES-block-aligned — truncated or corrupt"@)),
{
}

/// A buffer that was decrypted in place holds the plain bytes, as many as before; one that
/// was not is as it was.
pub proof fn law_in_place(
    before: Seq<u8>,
    after: Seq<u8>,
    r: Result<(), CradleError>,
    expected: Result<Seq<u8>, ErrorView>,
)
    requires
        in_place(before, after, r, expected),
    ensures
        expected is Ok <==> r is Ok,
        after.len() == before.len(),
        r is Ok ==> after == expected->Ok_0,
        r matches Err(e) ==> after == before && expected == Err::<Seq<u8>, _>(e@),
{
}

} // verus!
