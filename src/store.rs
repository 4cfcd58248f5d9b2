use vstd::prelude::*;

use crate::codec::parse;
use crate::desktop::{DesktopEntry, EntryView};
use crate::select::views;

verus! {

/// The entries that the files `files` describe, in order; a file that could
/// not be read (`None`) is skipped.
pub open spec fn parsed_files(files: Seq<Option<Seq<char>>>) -> Seq<EntryView>
    decreases files.len(),
{
    if files.len() == 0 {
        seq![]
    } else {
        let rest = parsed_files(files.drop_last());
        match files.last() {
            Some(text) => rest.push(parse(text)),
            None => rest,
        }
    }
}

/// The texts of the files, or `None` for one that could not be read.
pub open spec fn file_texts(files: Seq<Option<String>>) -> Seq<Option<Seq<char>>> {
    files.map_values(
        |f: Option<String>|
            match f {
                Some(s) => Some(s@),
                None => None,
            },
    )
}

/// Parses the files of the storage directory, in the order given. A file
/// that could not be read does not stop the others from loading.
pub fn read_desktop_files(files: &Vec<Option<String>>) -> (r: Vec<DesktopEntry>)
    ensures
        views(r@) == parsed_files(file_texts(files@)),
{
    let mut r: Vec<DesktopEntry> = Vec::new();
    let mut i: usize = 0;
    while i < files.len()
        invariant
            i <= files@.len(),
            views(r@) == parsed_files(file_texts(files@.take(i as int))),
        decreases files@.len() - i,
    {
        proof {
            assert(file_texts(files@.take(i + 1)).drop_last() =~= file_texts(files@.take(i as int)));
        }
        match &files[i] {
            Some(text) => {
                let e = DesktopEntry::read(text.as_str());
                let ghost before = r@;
                r.push(e);
                proof {
                    assert(views(r@) =~= views(before).push(e@));
                }
            },
            None => {},
        }
        i = i + 1;
    }
    proof {
        assert(files@.take(i as int) =~= files@);
    }
    r
}

} // verus!
