//! The named text buffers that records are read from: the members of an
//! archive, or the regular files of a directory.

use crate::error::Error;
use std::io::Cursor;
use vstd::prelude::*;
use zip::read::ZipArchive;
use zip::result::{InvalidPassword, ZipError};

verus! {

/// One input: the text of a file or of an archive member, with its name.
#[derive(Clone, Debug, PartialEq, Eq)]
pub struct SourceEntry {
    pub name: String,
    pub content: String,
}

/// What a [`SourceEntry`] holds, as mathematical values.
pub struct SourceEntryView {
    pub name: Seq<char>,
    pub content: Seq<char>,
}

impl View for SourceEntry {
    type V = SourceEntryView;

    open spec fn view(&self) -> SourceEntryView {
        SourceEntryView { name: self.name@, content: self.content@ }
    }
}

impl DeepView for SourceEntry {
    type V = SourceEntryView;

    open spec fn deep_view(&self) -> SourceEntryView {
        self.view()
    }
}

/// What comes of reading one member of an archive.
pub enum Member {
    /// The member was read in full, and is text.
    Text { name: Seq<char>, content: Seq<char> },
    /// The member begins but cannot be read in full as text.
    Unreadable,
    /// The archive does not give the member out.
    Unopened,
}

/// The members that the archive in `bytes` yields when they are read one by
/// one, or none where the bytes are not an archive that can be opened.
pub uninterp spec fn zip_members(bytes: Seq<u8>) -> Option<Seq<Member>>;

/// The members that an opened archive yields when they are read one by one.
pub uninterp spec fn members(archive: ZipArchive<Cursor<Vec<u8>>>) -> Seq<Member>;

/// The entries that the members make, or the failure of the first member
/// that cannot be had: an archive error where the archive does not give it
/// out, an I/O error where it cannot be read in full.
pub open spec fn entries_of(all: Seq<Member>) -> Result<Seq<SourceEntryView>, Error>
    decreases all.len(),
{
    if all.len() == 0 {
        Ok(Seq::empty())
    } else {
        match entries_of(all.drop_last()) {
            Err(e) => Err(e),
            Ok(before) => match all.last() {
                Member::Text { name, content } => Ok(before.push(SourceEntryView { name, content })),
                Member::Unreadable => Err(Error::Io),
                Member::Unopened => Err(Error::Archive),
            },
        }
    }
}

/// A failure among the first members is the failure of the whole.
pub proof fn lemma_entries_failure_stays(all: Seq<Member>, k: int)
    requires
        0 <= k <= all.len(),
        entries_of(all.take(k)) is Err,
    ensures
        entries_of(all) == entries_of(all.take(k)),
    decreases all.len(),
{
    if k == all.len() {
        assert(all.take(k) =~= all);
    } else {
        assert(all.drop_last().take(k) =~= all.take(k));
        lemma_entries_failure_stays(all.drop_last(), k);
    }
}

/// Whether `result` is what `expected` says in mathematical values.
pub open spec fn lists_as(
    result: Result<Vec<SourceEntry>, Error>,
    expected: Result<Seq<SourceEntryView>, Error>,
) -> bool {
    match expected {
        Ok(views) => result matches Ok(found) && found.deep_view() == views,
        Err(e) => result matches Err(error) && error == e,
    }
}

/// What the archive in `bytes` holds: one entry for each member, in the
/// archive's order, or the failure that stops the reading.
pub open spec fn archive_entries(bytes: Seq<u8>) -> Result<Seq<SourceEntryView>, Error> {
    match zip_members(bytes) {
        Some(all) => entries_of(all),
        None => Err(Error::Archive),
    }
}

/// Reads every member of the archive in `bytes` into memory.
///
/// Fails with [`Error::Archive`] where the bytes are not an archive that can
/// be opened or the archive does not give a member out, and with
/// [`Error::Io`] where a member cannot be read in full as text.
pub fn read_archive(bytes: Vec<u8>) -> (result: Result<Vec<SourceEntry>, Error>)
    ensures
        lists_as(result, archive_entries(bytes@)),
{
    let mut archive = match open_archive(bytes) {
        Ok(archive) => archive,
        Err(_) => {
            return Err(Error::Archive);
        },
    };
    let ghost all = members(archive);
    let count = member_count(&archive);
    let mut found: Vec<SourceEntry> = Vec::new();
    let mut i: usize = 0;
    assert(all.take(0) =~= Seq::<Member>::empty());
    assert(found.deep_view() =~= Seq::<SourceEntryView>::empty());
    while i < count
        invariant
            i <= count,
            count == all.len(),
            zip_members(bytes@) == Some(all),
            members(archive) == all,
            entries_of(all.take(i as int)) == Ok::<Seq<SourceEntryView>, Error>(found.deep_view()),
        decreases count - i,
    {
        proof {
            assert(all.take(i + 1).drop_last() =~= all.take(i as int));
            assert(all.take(i + 1).last() == all[i as int]);
        }
        let entry = match read_member(&mut archive, i) {
            Ok(Ok((name, Ok(content)))) => SourceEntry { name, content },
            Ok(Ok((_, Err(_)))) => {
                proof {
                    lemma_entries_failure_stays(all, i + 1);
                }
                return Err(Error::Io);
            },
            Ok(Err(_)) => {
                proof {
                    lemma_entries_failure_stays(all, i + 1);
                }
                return Err(Error::Archive);
            },
            Err(_) => {
                proof {
                    lemma_entries_failure_stays(all, i + 1);
                }
                return Err(Error::Archive);
            },
        };
        let ghost before = found.deep_view();
        found.push(entry);
        assert(found.deep_view() =~= before.push(entry@));
        i += 1;
    }
    assert(all.take(count as int) =~= all);
    Ok(found)
}

/// One entry of a directory, as its listing shows it.
#[derive(Clone, Debug, PartialEq, Eq)]
pub struct Listed {
    pub path: String,
    pub is_file: bool,
}

/// What a listing shows, as mathematical values.
pub open spec fn listing_view(listing: Seq<Listed>) -> Seq<(Seq<char>, bool)> {
    Seq::new(listing.len(), |i: int| (listing[i].path@, listing[i].is_file))
}

/// The paths of the regular files of a listing, in the listing's order.
pub open spec fn files_of(listing: Seq<(Seq<char>, bool)>) -> Seq<Seq<char>>
    decreases listing.len(),
{
    if listing.len() == 0 {
        Seq::empty()
    } else if listing.last().1 {
        files_of(listing.drop_last()).push(listing.last().0)
    } else {
        files_of(listing.drop_last())
    }
}

/// Picks the regular files of a directory listing. Directories and other
/// entries that are no files are passed over in silence.
pub fn regular_files(listing: Vec<Listed>) -> (paths: Vec<String>)
    ensures
        paths.deep_view() == files_of(listing_view(listing@)),
{
    let ghost shown = listing_view(listing@);
    let mut paths: Vec<String> = Vec::new();
    let mut i: usize = 0;
    assert(shown.take(0) =~= Seq::<(Seq<char>, bool)>::empty());
    assert(paths.deep_view() =~= Seq::<Seq<char>>::empty());
    while i < listing.len()
        invariant
            i <= listing.len(),
            shown == listing_view(listing@),
            paths.deep_view() == files_of(shown.take(i as int)),
        decreases listing.len() - i,
    {
        proof {
            assert(shown.take(i + 1).drop_last() =~= shown.take(i as int));
            assert(shown.take(i + 1).last() == shown[i as int]);
        }
        if listing[i].is_file {
            let ghost before = paths.deep_view();
            let path = listing[i].path.clone();
            paths.push(path);
            assert(paths.deep_view() =~= before.push(path@));
        }
        i += 1;
    }
    assert(shown.take(listing.len() as int) =~= shown);
    paths
}

/// `zip::read::ZipArchive`, an opened archive. Nothing is known of one but
/// its [`members`].
#[verifier::external_type_specification]
#[verifier::external_body]
#[verifier::reject_recursive_types(R)]
pub struct ExZipArchive<R>(ZipArchive<R>);

/// `std::io::Cursor`, which lets the archive be read from memory.
#[verifier::external_type_specification]
#[verifier::external_body]
#[verifier::reject_recursive_types(T)]
pub struct ExCursor<T>(Cursor<T>);

/// `zip::result::ZipError`, the archive's own failure.
#[verifier::external_type_specification]
#[verifier::external_body]
pub struct ExZipError(ZipError);

/// `zip::result::InvalidPassword`, the answer for a member that needs a
/// password.
#[verifier::external_type_specification]
#[verifier::external_body]
pub struct ExInvalidPassword(InvalidPassword);

/// `std::io::Error`, the failure of a read.
#[verifier::external_type_specification]
#[verifier::external_body]
pub struct ExIoError(std::io::Error);

/// Opens the archive in `bytes` with `ZipArchive::new`. The contract only
/// gives the outcome its name: what the opened archive yields is
/// `zip_members` of the bytes, and there is no such thing where the call
/// reports an error.
#[verifier::external_body]
pub(crate) fn open_archive(bytes: Vec<u8>) -> (opened: Result<ZipArchive<Cursor<Vec<u8>>>, ZipError>)
    ensures
        match opened {
            Ok(archive) => zip_members(bytes@) == Some(members(archive)),
            Err(_) => zip_members(bytes@) is None,
        },
{
    ZipArchive::new(Cursor::new(bytes))
}

/// `ZipArchive::len`: the number of members.
#[verifier::external_body]
pub(crate) fn member_count(archive: &ZipArchive<Cursor<Vec<u8>>>) -> (count: usize)
    ensures
        count == members(*archive).len(),
{
    archive.len()
}

/// Reads member `index` with `ZipArchive::by_index_decrypt`, given an empty
/// password, and `Read::read_to_string`. For a member that needs no
/// password the password is not looked at. A member that needs one is tried
/// with the empty password: the archive's check mostly refuses it, and the
/// member is then not given out; where the check lets it pass, the member is
/// read as it comes. The name is the member's name as the archive holds it.
/// Reading does not change what the archive yields.
#[verifier::external_body]
pub(crate) fn read_member(archive: &mut ZipArchive<Cursor<Vec<u8>>>, index: usize) -> (read: Result<
    Result<(String, Result<String, std::io::Error>), InvalidPassword>,
    ZipError,
>)
    ensures
        members(*final(archive)) == members(*old(archive)),
        index < members(*old(archive)).len() ==> members(*old(archive))[index as int] == (match read {
            Ok(Ok((name, Ok(content)))) => Member::Text { name: name@, content: content@ },
            Ok(Ok((_, Err(_)))) => Member::Unreadable,
            Ok(Err(_)) => Member::Unopened,
            Err(_) => Member::Unopened,
        }),
{
    let mut file = match archive.by_index_decrypt(index, &[])? {
        Ok(file) => file,
        Err(locked) => return Ok(Err(locked)),
    };
    let name = file.name().to_owned();
    let mut content = String::new();
    let read = std::io::Read::read_to_string(&mut file, &mut content).map(|_| content);
    Ok(Ok((name, read)))
}

} // verus!
