//! What the system says of a file, put into words.

use crate::text;
use vstd::prelude::*;

verus! {

/// What a file is called by kind.
pub open spec fn kind_text(is_dir: bool, is_symlink: bool, is_file: bool) -> Seq<char> {
    if is_dir {
        "directory"@
    } else if is_symlink {
        "symlink"@
    } else if is_file {
        "file"@
    } else {
        "other"@
    }
}

/// What a file is called by kind.
pub fn file_kind(is_dir: bool, is_symlink: bool, is_file: bool) -> (r: String)
    ensures
        r@ == kind_text(is_dir, is_symlink, is_file),
{
    if is_dir {
        "directory".to_owned()
    } else if is_symlink {
        "symlink".to_owned()
    } else if is_file {
        "file".to_owned()
    } else {
        "other".to_owned()
    }
}

// ---------------------------------------------------------------------------
// Permissions
// ---------------------------------------------------------------------------

/// The letter of a permission, from the owner's reading on: a dash where its bit
/// is not set.
pub open spec fn permission(mode: u32, i: int) -> char {
    if mode & (256u32 >> (i as u32)) == 0 {
        '-'
    } else if i % 3 == 0 {
        'r'
    } else if i % 3 == 1 {
        'w'
    } else {
        'x'
    }
}

/// What the owner, the group and the others may do.
pub open spec fn symbolic_text(mode: u32) -> Seq<char> {
    Seq::new(9, |i: int| permission(mode, i))
}

/// What the owner, the group and the others may do, as letters.
pub fn symbolic_permissions(mode: u32) -> (r: String)
    ensures
        r@ == symbolic_text(mode),
{
    let mut r = String::new();
    let mut i: u32 = 0;
    assert(r@ =~= symbolic_text(mode).take(0));
    while i < 9
        invariant
            i <= 9,
            r@ == symbolic_text(mode).take(i as int),
        decreases 9 - i,
    {
        let set = mode & (256u32 >> i) != 0;
        let letter = if !set {
            '-'
        } else if i % 3 == 0 {
            'r'
        } else if i % 3 == 1 {
            'w'
        } else {
            'x'
        };
        assert(letter == symbolic_text(mode)[i as int]);
        r.push(letter);
        i += 1;
        assert(r@ =~= symbolic_text(mode).take(i as int));
    }
    assert(symbolic_text(mode).take(9) =~= symbolic_text(mode));
    r
}

/// The permissions and the three bits in front of them, each group of bits as
/// one digit.
pub open spec fn octal_text(mode: u32) -> Seq<char> {
    text::decimal((mode / 512 % 8) as nat) + text::decimal((mode / 64 % 8) as nat) + text::decimal(
        (mode / 8 % 8) as nat,
    ) + text::decimal((mode % 8) as nat)
}

/// The permissions as four octal digits.
pub fn octal_permissions(mode: u32) -> (r: String)
    ensures
        r@ == octal_text(mode),
{
    let a = text::decimal_text((mode / 512 % 8) as u64);
    let b = text::decimal_text((mode / 64 % 8) as u64);
    let c = text::decimal_text((mode / 8 % 8) as u64);
    let d = text::decimal_text((mode % 8) as u64);
    text::join4(a.as_str(), b.as_str(), c.as_str(), d.as_str())
}

// ---------------------------------------------------------------------------
// Extended attributes
// ---------------------------------------------------------------------------

/// The names so far, with one more unless it is empty.
pub open spec fn with_name(names: Seq<Seq<u8>>, name: Seq<u8>) -> Seq<Seq<u8>> {
    if name.len() == 0 {
        names
    } else {
        names.push(name)
    }
}

/// The names that end in a list, in which a zero follows each, and what stands
/// behind the last zero.
pub open spec fn names_ended(list: Seq<u8>) -> (Seq<Seq<u8>>, Seq<u8>)
    decreases list.len(),
{
    if list.len() == 0 {
        (Seq::empty(), Seq::empty())
    } else {
        let (names, begun) = names_ended(list.drop_last());
        if list.last() == 0 {
            (with_name(names, begun), Seq::empty())
        } else {
            (names, begun.push(list.last()))
        }
    }
}

/// The names in a list of attributes.
pub open spec fn attribute_names(list: Seq<u8>) -> Seq<Seq<u8>> {
    with_name(names_ended(list).0, names_ended(list).1)
}

/// The bytes, each taken as a character, spell a word.
pub open spec fn spells(bytes: Seq<u8>, word: Seq<char>) -> bool {
    &&& bytes.len() == word.len()
    &&& forall|i: int| 0 <= i < bytes.len() ==> (#[trigger] bytes[i]) as char == word[i]
}

fn is_spelled(bytes: &Vec<u8>, word: &str) -> (r: bool)
    ensures
        r == spells(bytes@, word@),
{
    let chars = text::chars_of(word);
    if bytes.len() != chars.len() {
        return false;
    }
    let mut i: usize = 0;
    while i < bytes.len()
        invariant
            i <= bytes@.len(),
            bytes@.len() == chars@.len(),
            chars@ == word@,
            forall|k: int| 0 <= k < i ==> (#[trigger] bytes@[k]) as char == word@[k],
        decreases bytes@.len() - i,
    {
        if bytes[i] as char != chars[i] {
            assert(bytes@[i as int] as char != word@[i as int]);
            return false;
        }
        i += 1;
    }
    true
}

/// How many extended attributes a file has, and whether it is quarantined.
#[derive(Clone, Copy, Debug, PartialEq, Eq, Structural)]
pub struct Attributes {
    pub count: u64,
    pub quarantined: bool,
}

/// Some name is that of the quarantine.
pub open spec fn has_quarantine(names: Seq<Seq<u8>>) -> bool {
    exists|i: int| 0 <= i < names.len() && spells(#[trigger] names[i], "com.apple.quarantine"@)
}

proof fn one_name_more(names: Seq<Seq<u8>>, name: Seq<u8>)
    ensures
        has_quarantine(names.push(name)) == (has_quarantine(names) || spells(
            name,
            "com.apple.quarantine"@,
        )),
{
    let more = names.push(name);
    if has_quarantine(names) {
        let i = choose|i: int|
            0 <= i < names.len() && spells(#[trigger] names[i], "com.apple.quarantine"@);
        assert(more[i] == names[i]);
    }
    if has_quarantine(more) {
        let i = choose|i: int|
            0 <= i < more.len() && spells(#[trigger] more[i], "com.apple.quarantine"@);
        if i < names.len() {
            assert(more[i] == names[i]);
        }
    }
    assert(more[names.len() as int] == name);
}

/// What a list of attribute names, as the system gives it, says of a file.
pub fn read_attributes(list: &Vec<u8>) -> (r: Attributes)
    ensures
        r.count == attribute_names(list@).len(),
        r.quarantined == has_quarantine(attribute_names(list@)),
{
    let mut count: u64 = 0;
    let mut quarantined = false;
    let mut begun: Vec<u8> = Vec::new();
    let mut i: usize = 0;
    assert(list@.take(0) =~= Seq::<u8>::empty());
    assert(begun@ =~= Seq::<u8>::empty());
    while i < list.len()
        invariant
            i <= list@.len(),
            begun@ == names_ended(list@.take(i as int)).1,
            count == names_ended(list@.take(i as int)).0.len(),
            count <= i,
            quarantined == has_quarantine(names_ended(list@.take(i as int)).0),
        decreases list@.len() - i,
    {
        let ghost so_far = list@.take(i as int);
        let ghost more = list@.take(i + 1);
        assert(more.drop_last() =~= so_far);
        assert(more.last() == list@[i as int]);
        let byte: u8 = list[i];
        if byte == 0 {
            if begun.len() > 0 {
                proof {
                    one_name_more(names_ended(so_far).0, begun@);
                }
                quarantined = quarantined || is_spelled(&begun, "com.apple.quarantine");
                count += 1;
            }
            begun = Vec::new();
            assert(begun@ =~= Seq::<u8>::empty());
        } else {
            begun.push(byte);
        }
        i += 1;
    }
    assert(list@.take(list@.len() as int) =~= list@);
    if begun.len() > 0 {
        proof {
            one_name_more(names_ended(list@).0, begun@);
            names_are_few(list@);
        }
        quarantined = quarantined || is_spelled(&begun, "com.apple.quarantine");
        count += 1;
    }
    Attributes { count, quarantined }
}

/// Every name takes a byte of the list, and one that is begun another.
proof fn names_are_few(list: Seq<u8>)
    ensures
        names_ended(list).0.len() + names_ended(list).1.len() <= list.len(),
    decreases list.len(),
{
    if list.len() > 0 {
        names_are_few(list.drop_last());
    }
}

// ---------------------------------------------------------------------------
// Laws
// ---------------------------------------------------------------------------

/// Nine letters say what the owner, the group and the others may do, each in the
/// order of reading, writing and running: a letter stands exactly where its bit,
/// counted from the left, is one.
pub proof fn permissions_are_the_nine_bits(mode: u32)
    ensures
        symbolic_text(mode) == seq![
            if mode / 256 % 2 == 1 { 'r' } else { '-' },
            if mode / 128 % 2 == 1 { 'w' } else { '-' },
            if mode / 64 % 2 == 1 { 'x' } else { '-' },
            if mode / 32 % 2 == 1 { 'r' } else { '-' },
            if mode / 16 % 2 == 1 { 'w' } else { '-' },
            if mode / 8 % 2 == 1 { 'x' } else { '-' },
            if mode / 4 % 2 == 1 { 'r' } else { '-' },
            if mode / 2 % 2 == 1 { 'w' } else { '-' },
            if mode % 2 == 1 { 'x' } else { '-' },
        ],
{
    assert((mode & (256u32 >> 0u32) == 0 <==> mode / 256 % 2 == 0) && (mode & (256u32 >> 1u32) == 0
        <==> mode / 128 % 2 == 0) && (mode & (256u32 >> 2u32) == 0 <==> mode / 64 % 2 == 0) && (mode
        & (256u32 >> 3u32) == 0 <==> mode / 32 % 2 == 0) && (mode & (256u32 >> 4u32) == 0 <==> mode
        / 16 % 2 == 0) && (mode & (256u32 >> 5u32) == 0 <==> mode / 8 % 2 == 0) && (mode & (256u32
        >> 6u32) == 0 <==> mode / 4 % 2 == 0) && (mode & (256u32 >> 7u32) == 0 <==> mode / 2 % 2
        == 0) && (mode & (256u32 >> 8u32) == 0 <==> mode % 2 == 0)) by (bit_vector);
}

/// The permissions as digits: four of them, which to the base eight are the last
/// twelve bits.
pub proof fn permissions_are_four_digits(mode: u32) -> (d: (nat, nat, nat, nat))
    ensures
        d.0 < 8 && d.1 < 8 && d.2 < 8 && d.3 < 8,
        d.0 * 512 + d.1 * 64 + d.2 * 8 + d.3 == mode % 4096,
        octal_text(mode) == text::decimal(d.0) + text::decimal(d.1) + text::decimal(d.2)
            + text::decimal(d.3),
{
    assert(mode / 512 % 8 < 8 && mode / 64 % 8 < 8 && mode / 8 % 8 < 8 && mode % 8 < 8 && (mode
        / 512 % 8) * 512 + (mode / 64 % 8) * 64 + (mode / 8 % 8) * 8 + mode % 8 == mode % 4096)
        by (bit_vector);
    (
        (mode / 512 % 8) as nat,
        (mode / 64 % 8) as nat,
        (mode / 8 % 8) as nat,
        (mode % 8) as nat,
    )
}

/// Names, each with a zero behind it.
pub open spec fn with_zeros(names: Seq<Seq<u8>>) -> Seq<u8>
    decreases names.len(),
{
    if names.len() == 0 {
        Seq::empty()
    } else {
        with_zeros(names.drop_last()) + names.last() + seq![0u8]
    }
}

/// A list of names, each with a zero behind it, is read as these names, all of
/// them and in order.
pub proof fn every_attribute_is_read(names: Seq<Seq<u8>>)
    requires
        forall|i: int|
            0 <= i < names.len() ==> (#[trigger] names[i]).len() > 0 && !names[i].contains(0),
    ensures
        attribute_names(with_zeros(names)) == names,
    decreases names.len(),
{
    names_are_ended(names);
}

proof fn names_are_ended(names: Seq<Seq<u8>>)
    requires
        forall|i: int|
            0 <= i < names.len() ==> (#[trigger] names[i]).len() > 0 && !names[i].contains(0),
    ensures
        names_ended(with_zeros(names)) == (names, Seq::<u8>::empty()),
    decreases names.len(),
{
    if names.len() == 0 {
        assert(names =~= Seq::empty());
    } else {
        let less = names.drop_last();
        let name = names.last();
        assert(names[names.len() - 1] == name);
        assert forall|i: int| 0 <= i < less.len() implies (#[trigger] less[i]).len() > 0
            && !less[i].contains(0) by {
            assert(less[i] == names[i]);
        }
        names_are_ended(less);
        name_is_begun(with_zeros(less), name);
        let list = with_zeros(names);
        assert(list.drop_last() =~= with_zeros(less) + name);
        assert(less.push(name) =~= names);
    }
}

proof fn name_is_begun(list: Seq<u8>, name: Seq<u8>)
    requires
        names_ended(list).1.len() == 0,
        !name.contains(0),
    ensures
        names_ended(list + name) == (names_ended(list).0, name),
    decreases name.len(),
{
    if name.len() == 0 {
        assert(list + name =~= list);
        assert(names_ended(list).1 =~= name);
    } else {
        let less = name.drop_last();
        assert(name.contains(name[name.len() - 1]));
        assert forall|i: int| 0 <= i < less.len() implies less[i] != 0 by {
            assert(name.contains(name[i]));
        }
        name_is_begun(list, less);
        assert((list + name).drop_last() =~= list + less);
        assert(less.push(name.last()) =~= name);
    }
}

} // verus!
