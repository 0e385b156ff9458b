//! Names and paths of files.
use crate::text::{decimal, law_digits_stand_for_their_number, lemma_middle, push_decimal};
use vstd::prelude::*;
use vstd::utf8::{decode_utf8, encode_utf8, valid_utf8};

verus! {

/// Reads bytes as UTF-8, with `String::from_utf8`: there is a text exactly where the bytes are
/// valid UTF-8, and it is the text that they encode.
#[verifier::external_body]
fn text_from_utf8(bytes: Vec<u8>) -> (res: Option<String>)
    ensures
        res is Some <==> valid_utf8(bytes@),
        res matches Some(text) ==> text@ == decode_utf8(bytes@),
{
    String::from_utf8(bytes).ok()
}

/// `text` without the NUL characters at its end.
pub open spec fn without_nuls(text: Seq<char>) -> Seq<char>
    decreases text.len(),
{
    if text.len() > 0 && text.last() == '\0' {
        without_nuls(text.drop_last())
    } else {
        text
    }
}

/// The path on the host that an extended attribute of a file names, if any.
pub open spec fn host_path(attribute: Option<Seq<u8>>) -> Option<Seq<char>> {
    match attribute {
        Some(bytes) => if valid_utf8(bytes) {
            Some(without_nuls(decode_utf8(bytes)))
        } else {
            None
        },
        None => None,
    }
}

/// Where a file that was chosen through a portal lies on the host, as far as its extended
/// attribute tells. Where this is `None`, the path that the portal gave is the one to use.
pub fn resolve_portal_path(xattr_value: Option<Vec<u8>>) -> (res: Option<String>)
    ensures
        match host_path(
            match xattr_value {
                Some(value) => Some(value@),
                None => None,
            },
        ) {
            Some(path) => res matches Some(text) && text@ == path,
            None => res is None,
        },
{
    let value = match xattr_value {
        Some(value) => value,
        None => {
            return None;
        },
    };
    let text = match text_from_utf8(value) {
        Some(text) => text,
        None => {
            return None;
        },
    };
    let mut end: usize = text.as_str().unicode_len();
    assert(text@.take(end as int) =~= text@);
    while end > 0 && text.as_str().get_char(end - 1) == '\0'
        invariant
            end <= text@.len() <= usize::MAX,
            without_nuls(text@) == without_nuls(text@.take(end as int)),
        decreases end,
    {
        proof {
            let shorter = text@.take(end as int);
            assert(shorter.drop_last() =~= text@.take(end - 1));
        }
        end = end - 1;
    }
    assert(text@.subrange(0, end as int) =~= text@.take(end as int));
    Some(text.as_str().substring_char(0, end).to_owned())
}

proof fn lemma_nuls_are_removed(path: Seq<char>, nuls: Seq<char>)
    requires
        path.len() > 0 ==> path.last() != '\0',
        forall|i: int| 0 <= i < nuls.len() ==> nuls[i] == '\0',
    ensures
        without_nuls(path + nuls) == path,
    decreases nuls.len(),
{
    if nuls.len() == 0 {
        assert(path + nuls =~= path);
    } else {
        assert((path + nuls).drop_last() =~= path + nuls.drop_last());
        lemma_nuls_are_removed(path, nuls.drop_last());
    }
}

/// A path that the attribute holds in UTF-8, followed by any number of NUL characters, is read
/// back, unless it ends in such a character itself.
pub proof fn law_host_path_is_read_back(path: Seq<char>, nuls: Seq<char>)
    requires
        path.len() > 0 ==> path.last() != '\0',
        forall|i: int| 0 <= i < nuls.len() ==> nuls[i] == '\0',
    ensures
        host_path(Some(encode_utf8(path + nuls))) == Some(path),
{
    vstd::utf8::encode_utf8_valid_utf8(path + nuls);
    vstd::utf8::encode_utf8_decode_utf8(path + nuls);
    lemma_nuls_are_removed(path, nuls);
}

/// The `nth` name, counted from zero, for a recording that was begun `timestamp` seconds after the
/// epoch.
pub open spec fn recording_name(timestamp: nat, nth: nat) -> Seq<char> {
    "recording_"@ + recording_number(timestamp, nth) + ".mkv"@
}

/// What tells recordings apart: the second, and a number within it for all but the first.
pub open spec fn recording_number(timestamp: nat, nth: nat) -> Seq<char> {
    if nth == 0 {
        decimal(timestamp)
    } else {
        decimal(timestamp) + "_"@ + decimal(nth)
    }
}

/// Whether a name is among those that are taken.
pub open spec fn is_taken(name: Seq<char>, taken: Seq<String>) -> bool {
    exists|i: int| 0 <= i < taken.len() && (#[trigger] taken[i])@ == name
}

proof fn lemma_decimal_is_digits(n: nat)
    ensures
        forall|i: int| 0 <= i < decimal(n).len() ==> #[trigger] decimal(n)[i] != '_',
    decreases n,
{
    if n >= 10 {
        lemma_decimal_is_digits(n / 10);
        assert forall|i: int| 0 <= i < decimal(n).len() implies #[trigger] decimal(n)[i] != '_' by {
            if i < decimal(n / 10).len() {
                assert(decimal(n)[i] == decimal(n / 10)[i]);
            }
        }
    }
}

/// No two recordings share a name: it tells both the second and the number within it.
pub proof fn law_recordings_have_names_of_their_own(
    timestamp: nat,
    nth: nat,
    other_timestamp: nat,
    other_nth: nat,
)
    requires
        recording_name(timestamp, nth) == recording_name(other_timestamp, other_nth),
    ensures
        timestamp == other_timestamp,
        nth == other_nth,
{
    let a = recording_number(timestamp, nth);
    let b = recording_number(other_timestamp, other_nth);
    let (la, lb) = (decimal(timestamp).len() as int, decimal(other_timestamp).len() as int);
    reveal_strlit("_");
    lemma_middle("recording_"@, a, b, ".mkv"@);
    lemma_decimal_is_digits(timestamp);
    lemma_decimal_is_digits(other_timestamp);
    if nth != 0 {
        assert(a[la] == '_');
    }
    if other_nth != 0 {
        assert(b[lb] == '_');
    }
    assert(nth == 0 <==> other_nth == 0) by {
        if nth == 0 && other_nth != 0 {
            assert(decimal(timestamp)[lb] == '_');
        }
        if nth != 0 && other_nth == 0 {
            assert(decimal(other_timestamp)[la] == '_');
        }
    }
    if nth != 0 {
        if la < lb {
            assert(b[la] == decimal(other_timestamp)[la]);
        } else if lb < la {
            assert(a[lb] == decimal(timestamp)[lb]);
        }
        assert(decimal(timestamp) =~= a.take(la));
        assert(decimal(other_timestamp) =~= b.take(lb));
        assert(decimal(nth) =~= a.skip(la + 1));
        assert(decimal(other_nth) =~= b.skip(lb + 1));
        law_digits_stand_for_their_number(nth, 0);
        law_digits_stand_for_their_number(other_nth, 0);
    }
    law_digits_stand_for_their_number(timestamp, 0);
    law_digits_stand_for_their_number(other_timestamp, 0);
}

/// No more different names can be taken than there are.
proof fn lemma_taken_names(timestamp: nat, count: nat, taken: Seq<String>)
    requires
        forall|j: nat| j < count ==> is_taken(#[trigger] recording_name(timestamp, j), taken),
    ensures
        count <= taken.len(),
{
    let place = |j: int|
        choose|i: int|
            0 <= i < taken.len() && (#[trigger] taken[i])@ == recording_name(timestamp, j as nat);
    let places = Seq::new(count, place);
    assert forall|j: int| 0 <= j < count implies 0 <= #[trigger] places[j] < taken.len()
        && taken[places[j]]@ == recording_name(timestamp, j as nat) by {
        assert(is_taken(recording_name(timestamp, j as nat), taken));
    }
    assert forall|j: int, k: int| 0 <= j < k < count implies places[j] != places[k] by {
        if places[j] == places[k] {
            law_recordings_have_names_of_their_own(timestamp, j as nat, timestamp, k as nat);
        }
    }
    places.unique_seq_to_set();
    vstd::set_lib::lemma_int_range(0, taken.len() as int);
    assert forall|i: int| #[trigger] places.to_set().contains(i) implies vstd::set_lib::set_int_range(
        0,
        taken.len() as int,
    ).contains(i) by {
        let j = choose|j: int| 0 <= j < places.len() && places[j] == i;
        assert(0 <= places[j] < taken.len());
    }
    vstd::set_lib::lemma_len_subset(
        places.to_set(),
        vstd::set_lib::set_int_range(0, taken.len() as int),
    );
}

fn is_taken_name(name: &String, taken: &Vec<String>) -> (res: bool)
    ensures
        res == is_taken(name@, taken@),
{
    let mut i: usize = 0;
    while i < taken.len()
        invariant
            i <= taken@.len(),
            forall|k: int| 0 <= k < i ==> (#[trigger] taken@[k])@ != name@,
        decreases taken@.len() - i,
    {
        if taken[i] == *name {
            return true;
        }
        i = i + 1;
    }
    false
}

/// A name for a recording that was begun `timestamp` seconds after the epoch: the first one that is
/// not taken.
pub fn recording_file_name(timestamp: u64, taken: &Vec<String>) -> (res: String)
    ensures
        exists|nth: nat|
            {
                &&& res@ == #[trigger] recording_name(timestamp as nat, nth)
                &&& forall|j: nat|
                    j < nth ==> is_taken(#[trigger] recording_name(timestamp as nat, j), taken@)
            },
        forall|i: int| 0 <= i < taken@.len() ==> res@ != (#[trigger] taken@[i])@,
{
    let count: usize = taken.len();
    let mut nth: usize = 0;
    loop
        invariant
            nth <= count == taken@.len(),
            forall|j: nat|
                j < nth ==> is_taken(#[trigger] recording_name(timestamp as nat, j), taken@),
        decreases taken@.len() - nth,
    {
        let mut name = "recording_".to_owned();
        push_decimal(&mut name, timestamp);
        if nth > 0 {
            name.append("_");
            push_decimal(&mut name, nth as u64);
        }
        name.append(".mkv");
        assert(name@ =~= recording_name(timestamp as nat, nth as nat));
        if !is_taken_name(&name, taken) {
            assert(!is_taken(name@, taken@));
            return name;
        }
        proof {
            lemma_taken_names(timestamp as nat, (nth + 1) as nat, taken@);
        }
        nth = nth + 1;
    }
}

/// Whether `path` leads to a file called `name`, in the folder that `folder` leads to.
pub open spec fn names_file(path: Seq<char>, folder: Seq<char>, name: Seq<char>) -> bool {
    &&& path == folder + name
    &&& folder.len() > 0 ==> folder.last() == '/'
    &&& name.len() > 0
    &&& name[0] != '.'
    &&& forall|i: int|
        0 <= i < name.len() ==> #[trigger] name[i] != '/' && name[i] != '\\' && name[i] != ':'
}

/// A file's name up to its last dot, if it has any.
pub open spec fn file_stem(name: Seq<char>) -> Seq<char>
    decreases name.len(),
{
    if !name.contains('.') {
        name
    } else if name.last() == '.' {
        name.drop_last()
    } else {
        file_stem(name.drop_last())
    }
}

/// A file's name with an extension in place of its own, or without one where that is empty.
pub open spec fn renamed(name: Seq<char>, extension: Seq<char>) -> Seq<char> {
    if extension.len() == 0 {
        file_stem(name)
    } else {
        file_stem(name) + seq!['.'] + extension
    }
}

/// Whether `after` may be a path once it has another extension. It is left open for paths that lead
/// to no ordinary file, and differs between machines.
pub uninterp spec fn takes_extension(
    path: Seq<char>,
    extension: Seq<char>,
    after: Seq<char>,
) -> bool;

/// A path with another extension, or without one where that is empty, with
/// `std::path::Path::with_extension`: for a file whose name does not begin with a dot, and holds no
/// separator of any machine, what comes after the last dot in the name is replaced. What becomes of
/// other paths is left unsaid.
#[verifier::external_body]
pub(crate) fn with_extension(path: &str, extension: &str) -> (res: String)
    requires
        forall|i: int|
            0 <= i < extension@.len() ==> #[trigger] extension@[i] != '/' && extension@[i] != '\\',
    ensures
        takes_extension(path@, extension@, res@),
        forall|folder: Seq<char>, name: Seq<char>| #[trigger]
            names_file(path@, folder, name) ==> res@ == folder + renamed(name, extension@),
{
    std::path::Path::new(path).with_extension(extension).to_string_lossy().into_owned()
}

/// The names that recordings were given, in turn.
#[derive(Debug)]
pub struct RecordingNames {
    pub names: Vec<String>,
}

impl RecordingNames {
    /// The names as texts.
    pub open spec fn given(self) -> Seq<Seq<char>> {
        Seq::new(self.names@.len(), |i: int| self.names@[i]@)
    }

    /// Whether no name was given twice.
    pub open spec fn well_formed(self) -> bool {
        self.given().no_duplicates()
    }

    pub fn new() -> (res: Self)
        ensures
            res.given() == Seq::<Seq<char>>::empty(),
            res.well_formed(),
    {
        let res = RecordingNames { names: Vec::new() };
        assert(res.given() =~= Seq::<Seq<char>>::empty());
        res
    }

    /// Gives a name to a recording that was begun `timestamp` seconds after the epoch: one that is
    /// not among the files that there are, and was not given before.
    pub fn give(&mut self, timestamp: u64, files: &Vec<String>) -> (res: String)
        ensures
            exists|nth: nat|
                {
                    &&& res@ == #[trigger] recording_name(timestamp as nat, nth)
                    &&& forall|j: nat|
                        j < nth ==> is_taken(
                            #[trigger] recording_name(timestamp as nat, j),
                            files@ + old(self).names@,
                        )
                },
            forall|i: int| 0 <= i < files@.len() ==> res@ != (#[trigger] files@[i])@,
            !old(self).given().contains(res@),
            final(self).given() == old(self).given().push(res@),
            old(self).well_formed() ==> final(self).well_formed(),
    {
        let mut taken: Vec<String> = Vec::new();
        append_names(&mut taken, files);
        append_names(&mut taken, &self.names);
        let name = recording_file_name(timestamp, &taken);
        proof {
            let all = files@ + self.names@;
            assert(taken@.len() == all.len());
            assert forall|text: Seq<char>| is_taken(text, taken@) == #[trigger] is_taken(
                text,
                all,
            ) by {
                if is_taken(text, taken@) {
                    let i = choose|i: int|
                        0 <= i < taken@.len() && (#[trigger] taken@[i])@ == text;
                    assert(all[i]@ == text);
                }
                if is_taken(text, all) {
                    let i = choose|i: int| 0 <= i < all.len() && (#[trigger] all[i])@ == text;
                    assert(taken@[i]@ == text);
                }
            }
            assert forall|i: int| 0 <= i < files@.len() implies name@ != (
            #[trigger] files@[i])@ by {
                assert(taken@[i]@ == files@[i]@);
            }
            assert forall|i: int| 0 <= i < self.given().len() implies name@
                != #[trigger] self.given()[i] by {
                assert(taken@[files@.len() + i]@ == self.names@[i]@);
            }
        }
        self.names.push(name.clone());
        assert(self.given() =~= old(self).given().push(name@));
        name
    }
}

/// Appends copies of some names.
fn append_names(names: &mut Vec<String>, more: &Vec<String>)
    ensures
        final(names)@.len() == old(names)@.len() + more@.len(),
        forall|i: int|
            0 <= i < old(names)@.len() ==> (#[trigger] final(names)@[i])@ == old(names)@[i]@,
        forall|i: int|
            old(names)@.len() <= i < final(names)@.len() ==> (#[trigger] final(names)@[i])@
                == more@[i - old(names)@.len()]@,
{
    let mut i: usize = 0;
    while i < more.len()
        invariant
            i <= more@.len(),
            names@.len() == old(names)@.len() + i,
            forall|k: int| 0 <= k < old(names)@.len() ==> (#[trigger] names@[k])@ == old(names)@[k]@,
            forall|k: int|
                old(names)@.len() <= k < names@.len() ==> (#[trigger] names@[k])@ == more@[k
                    - old(names)@.len()]@,
        decreases more@.len() - i,
    {
        names.push(more[i].clone());
        i = i + 1;
    }
}

/// Any two recordings have different names, also those that were begun in one second. `states` are
/// the names given before each recording, and `names` what the recordings are then called.
pub proof fn law_no_recording_name_is_given_twice(
    states: Seq<RecordingNames>,
    names: Seq<Seq<char>>,
    i: int,
    j: int,
)
    requires
        states.len() == names.len() + 1,
        forall|k: int|
            0 <= k < names.len() ==> !states[k].given().contains(#[trigger] names[k])
                && states[k + 1].given() == states[k].given().push(names[k]),
        0 <= i < j < names.len(),
    ensures
        names[i] != names[j],
{
    lemma_given_names_are_kept(states, names, i, j);
    assert(!states[j].given().contains(names[j]));
}

proof fn lemma_given_names_are_kept(
    states: Seq<RecordingNames>,
    names: Seq<Seq<char>>,
    i: int,
    j: int,
)
    requires
        states.len() == names.len() + 1,
        forall|k: int|
            0 <= k < names.len() ==> !states[k].given().contains(#[trigger] names[k])
                && states[k + 1].given() == states[k].given().push(names[k]),
        0 <= i < j <= names.len(),
    ensures
        states[j].given().contains(names[i]),
    decreases j - i,
{
    let k = j - 1;
    let before = states[k].given();
    assert(states[k + 1].given() == before.push(names[k]));
    if i == k {
        assert(states[j].given()[before.len() as int] == names[i]);
    } else {
        lemma_given_names_are_kept(states, names, i, k);
        let at = choose|at: int| 0 <= at < before.len() && before[at] == names[i];
        assert(states[j].given()[at] == names[i]);
    }
}

/// The location of a file as a URI.
pub fn file_uri(path: &str) -> (res: String)
    ensures
        res@ == "file://"@ + path@,
{
    let mut uri = "file://".to_owned();
    uri.append(path);
    uri
}

/// An attribute that is missing, or is not valid UTF-8, names no path.
pub proof fn law_unreadable_attribute_names_no_path(bytes: Seq<u8>)
    ensures
        host_path(None) is None,
        host_path(Some(bytes)) is Some <==> valid_utf8(bytes),
{
}

/// The first name for a second tells the second alone; the others tell, after it, how many names
/// were before them.
pub proof fn law_recording_name_tells_second_and_number(timestamp: nat, nth: nat)
    ensures
        nth == 0 ==> recording_name(timestamp, nth) == "recording_"@ + decimal(timestamp)
            + ".mkv"@,
        nth > 0 ==> recording_name(timestamp, nth) == "recording_"@ + decimal(timestamp) + "_"@
            + decimal(nth) + ".mkv"@,
{
    assert("recording_"@ + (decimal(timestamp) + "_"@ + decimal(nth)) + ".mkv"@ =~= "recording_"@
        + decimal(timestamp) + "_"@ + decimal(nth) + ".mkv"@);
}

/// A file's name without its extension is what comes before its last dot, and the whole name where
/// there is none.
pub proof fn law_stem_ends_at_last_dot(stem: Seq<char>, extension: Seq<char>)
    requires
        !extension.contains('.'),
    ensures
        file_stem(stem + seq!['.'] + extension) == stem,
        file_stem(extension) == extension,
    decreases extension.len(),
{
    let name = stem + seq!['.'] + extension;
    assert(name[stem.len() as int] == '.');
    assert(name.contains('.'));
    if extension.len() == 0 {
        assert(name.drop_last() =~= stem);
    } else {
        let shorter = extension.drop_last();
        assert(extension[extension.len() - 1] != '.');
        assert(!shorter.contains('.')) by {
            assert forall|i: int| 0 <= i < shorter.len() implies shorter[i] != '.' by {
                assert(shorter[i] == extension[i]);
            }
        }
        assert(name.drop_last() =~= stem + seq!['.'] + shorter);
        law_stem_ends_at_last_dot(stem, shorter);
    }
}

/// A file that takes another extension keeps the rest of its name, and then has that extension.
pub proof fn law_renaming_replaces_the_extension(
    stem: Seq<char>,
    extension: Seq<char>,
    other: Seq<char>,
)
    requires
        !extension.contains('.'),
        other.len() > 0,
    ensures
        renamed(stem + seq!['.'] + extension, other) == stem + seq!['.'] + other,
        renamed(stem + seq!['.'] + extension, Seq::empty()) == stem,
{
    law_stem_ends_at_last_dot(stem, extension);
}

} // verus!
