use vstd::prelude::*;
use crate::resolver::DownloadFile;

verus! {

/// The names held by a list of strings.
pub open spec fn names(s: Seq<String>) -> Seq<Seq<char>> {
    s.map_values(|n: String| n@)
}

/// The file names of a list of files to download.
pub open spec fn filenames(s: Seq<DownloadFile>) -> Seq<Seq<char>> {
    s.map_values(|f: DownloadFile| f.filename@)
}

/// Files still to download once the directory holds `present`.
pub open spec fn downloads_left(files: Seq<DownloadFile>, present: Seq<Seq<char>>) -> Seq<
    DownloadFile,
> {
    files.filter(|f: DownloadFile| !present.contains(f.filename@))
}

/// Manual installs still to copy once the directory holds `present`.
pub open spec fn installs_left(install: Seq<String>, present: Seq<Seq<char>>) -> Seq<String> {
    install.filter(|n: String| !present.contains(n@))
}

/// Files of the directory that neither a download nor a manual install
/// accounts for: they go to quarantine.
pub open spec fn unexpected(
    present: Seq<String>,
    wanted: Seq<Seq<char>>,
    install: Seq<Seq<char>>,
) -> Seq<String> {
    present.filter(|n: String| !wanted.contains(n@) && !install.contains(n@))
}

/// Whether `list` holds a string equal to `name`.
fn contains_name(list: &Vec<String>, name: &String) -> (r: bool)
    ensures
        r == names(list@).contains(name@),
{
    let mut i: usize = 0;
    while i < list.len()
        invariant
            i <= list@.len(),
            forall|j: int| 0 <= j < i ==> list@[j]@ != name@,
        decreases list@.len() - i,
    {
        if list[i] == *name {
            assert(names(list@)[i as int] == name@);
            return true;
        }
        i = i + 1;
    }
    proof {
        if names(list@).contains(name@) {
            let j = choose|j: int| 0 <= j < names(list@).len() && names(list@)[j] == name@;
            assert(list@[j]@ == name@);
        }
    }
    false
}

/// Whether some file of `files` is named `name`.
fn contains_filename(files: &Vec<DownloadFile>, name: &String) -> (r: bool)
    ensures
        r == filenames(files@).contains(name@),
{
    let mut i: usize = 0;
    while i < files.len()
        invariant
            i <= files@.len(),
            forall|j: int| 0 <= j < i ==> files@[j].filename@ != name@,
        decreases files@.len() - i,
    {
        if files[i].filename == *name {
            assert(filenames(files@)[i as int] == name@);
            return true;
        }
        i = i + 1;
    }
    proof {
        if filenames(files@).contains(name@) {
            let j = choose|j: int|
                0 <= j < filenames(files@).len() && filenames(files@)[j] == name@;
            assert(files@[j].filename@ == name@);
        }
    }
    false
}

/// Compares the files already in the output directory (`present`, by name)
/// with what a run wants there. A file to download that is already present
/// is not downloaded again; a manual install that is already present is not
/// copied again; every other present file is returned, to be moved into
/// quarantine. Nothing is ever marked for deletion.
pub fn plan_cleanup(
    present: &Vec<String>,
    to_download: &mut Vec<DownloadFile>,
    to_install: &mut Vec<String>,
) -> (quarantine: Vec<String>)
    ensures
        final(to_download)@ == downloads_left(old(to_download)@, names(present@)),
        final(to_install)@ == installs_left(old(to_install)@, names(present@)),
        quarantine@ == unexpected(
            present@,
            filenames(old(to_download)@),
            names(old(to_install)@),
        ),
{
    let mut quarantine: Vec<String> = Vec::new();
    let mut i: usize = 0;
    while i < present.len()
        invariant
            i <= present@.len(),
            quarantine@ == unexpected(
                present@.take(i as int),
                filenames(to_download@),
                names(to_install@),
            ),
        decreases present@.len() - i,
    {
        let n = &present[i];
        proof {
            assert(present@.take(i + 1).drop_last() =~= present@.take(i as int));
            reveal(Seq::filter);
        }
        if !contains_filename(to_download, n) && !contains_name(to_install, n) {
            quarantine.push(n.clone());
        }
        i = i + 1;
    }
    assert(present@.take(present@.len() as int) =~= present@);

    let mut files: Vec<DownloadFile> = Vec::new();
    std::mem::swap(to_download, &mut files);
    let ghost all_files = files@;
    let total_files = files.len();
    let mut j: usize = 0;
    while files.len() > 0
        invariant
            j + files@.len() == all_files.len(),
            all_files.len() == total_files,
            files@ == all_files.skip(j as int),
            to_download@ == downloads_left(all_files.take(j as int), names(present@)),
        decreases files@.len(),
    {
        let f = files.remove(0);
        proof {
            assert(all_files.take(j + 1).drop_last() =~= all_files.take(j as int));
            assert(all_files.take(j + 1).last() == f);
            assert(files@ =~= all_files.skip(j + 1));
            reveal(Seq::filter);
        }
        if !contains_name(present, &f.filename) {
            to_download.push(f);
        }
        j = j + 1;
    }
    assert(all_files.take(j as int) =~= all_files);

    let mut inst: Vec<String> = Vec::new();
    std::mem::swap(to_install, &mut inst);
    let ghost all_inst = inst@;
    let total_inst = inst.len();
    let mut k: usize = 0;
    while inst.len() > 0
        invariant
            k + inst@.len() == all_inst.len(),
            all_inst.len() == total_inst,
            inst@ == all_inst.skip(k as int),
            to_install@ == installs_left(all_inst.take(k as int), names(present@)),
        decreases inst@.len(),
    {
        let n = inst.remove(0);
        proof {
            assert(all_inst.take(k + 1).drop_last() =~= all_inst.take(k as int));
            assert(all_inst.take(k + 1).last() == n);
            assert(inst@ =~= all_inst.skip(k + 1));
            reveal(Seq::filter);
        }
        if !contains_name(present, &n) {
            to_install.push(n);
        }
        k = k + 1;
    }
    assert(all_inst.take(k as int) =~= all_inst);
    quarantine
}

} // verus!
