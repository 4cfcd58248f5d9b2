use vstd::prelude::*;

use crate::codec::{desktop_lines, join_lines, make_desktop, parse, set_view, Key};
use crate::slug::{filename_of, join_path, name_to_desktop_file_path, name_to_filename};
use crate::text::{push_all, push_str};

verus! {

/// What a launcher entry holds, as plain values.
pub struct EntryView {
    pub name: Seq<char>,
    pub kind: Seq<char>,
    pub comment: Seq<char>,
    pub path: Seq<char>,
    pub command: Seq<char>,
    pub icon: Seq<char>,
    pub terminal: bool,
    pub categories: Seq<char>,
}

/// `Application`, the kind that entries have unless a file says otherwise.
pub open spec fn application() -> Seq<char> {
    seq!['A', 'p', 'p', 'l', 'i', 'c', 'a', 't', 'i', 'o', 'n']
}

pub fn application_vec() -> (r: Vec<char>)
    ensures
        r@ == application(),
{
    vec!['A', 'p', 'p', 'l', 'i', 'c', 'a', 't', 'i', 'o', 'n']
}

/// The entry with every text empty, kind `Application`, and no terminal.
pub open spec fn blank_view() -> EntryView {
    EntryView {
        name: seq![],
        kind: application(),
        comment: seq![],
        path: seq![],
        command: seq![],
        icon: seq![],
        terminal: false,
        categories: seq![],
    }
}

/// How an entry is shown in a listing: its name, then, indented, its working
/// directory when it has one, and its command.
pub open spec fn display_of(e: EntryView) -> Seq<char> {
    if e.path.len() == 0 {
        e.name + seq!['\n', '\t', 'e', 'x', 'e', 'c', ' '] + e.command
    } else {
        e.name + seq!['\n', '\t', 'c', 'd', ' '] + e.path + seq!['\n', '\t', 'e', 'x', 'e', 'c', ' ']
            + e.command
    }
}

/// The text of the file that stores `e`.
pub open spec fn serialize(e: EntryView) -> Seq<char> {
    join_lines(
        desktop_lines(e.name, e.comment, e.path, e.command, e.icon, e.terminal, e.categories),
    )
}

/// A launcher entry: how to run a program, and how the launcher shows it.
pub struct DesktopEntry {
    name: String,
    shortcut_type: String,
    comment: String,
    path: String,
    command: String,
    icon: String,
    terminal: bool,
    categories: String,
}

impl View for DesktopEntry {
    type V = EntryView;

    closed spec fn view(&self) -> EntryView {
        EntryView {
            name: self.name@,
            kind: self.shortcut_type@,
            comment: self.comment@,
            path: self.path@,
            command: self.command@,
            icon: self.icon@,
            terminal: self.terminal,
            categories: self.categories@,
        }
    }
}

impl Clone for DesktopEntry {
    fn clone(&self) -> (r: DesktopEntry)
        ensures
            r@ == self@,
    {
        DesktopEntry {
            name: self.name.clone(),
            shortcut_type: self.shortcut_type.clone(),
            comment: self.comment.clone(),
            path: self.path.clone(),
            command: self.command.clone(),
            icon: self.icon.clone(),
            terminal: self.terminal,
            categories: self.categories.clone(),
        }
    }
}

impl DesktopEntry {
    /// The entry with every text empty, of kind `Application`.
    pub fn blank() -> (r: DesktopEntry)
        ensures
            r@ == blank_view(),
    {
        let mut kind = String::new();
        push_all(&mut kind, &application_vec());
        DesktopEntry {
            name: String::new(),
            shortcut_type: kind,
            comment: String::new(),
            path: String::new(),
            command: String::new(),
            icon: String::new(),
            terminal: false,
            categories: String::new(),
        }
    }

    /// An entry of kind `Application` with the given texts, run outside a
    /// terminal.
    pub fn new(
        name: &str,
        comment: &str,
        path: &str,
        command: &str,
        icon: &str,
        categories: &str,
    ) -> (r: DesktopEntry)
        ensures
            r@ == (EntryView {
                name: name@,
                kind: application(),
                comment: comment@,
                path: path@,
                command: command@,
                icon: icon@,
                terminal: false,
                categories: categories@,
            }),
    {
        let mut r = DesktopEntry::blank();
        push_str(&mut r.name, name);
        push_str(&mut r.comment, comment);
        push_str(&mut r.path, path);
        push_str(&mut r.command, command);
        push_str(&mut r.icon, icon);
        push_str(&mut r.categories, categories);
        r
    }

    /// Parses an entry from the text of its file.
    pub fn read(input: &str) -> (r: DesktopEntry)
        ensures
            r@ == parse(input@),
    {
        crate::codec::parse_text(input)
    }

    /// Sets the field of `key` to `value`, or the terminal flag to `flag`.
    pub(crate) fn set_field(&mut self, key: Key, value: String, flag: bool)
        ensures
            final(self)@ == set_view(old(self)@, key, value@, flag),
    {
        match key {
            Key::Type => self.shortcut_type = value,
            Key::Name => self.name = value,
            Key::Comment => self.comment = value,
            Key::Path => self.path = value,
            Key::Exec => self.command = value,
            Key::Icon => self.icon = value,
            Key::Terminal => self.terminal = flag,
            Key::Categories => self.categories = value,
        }
    }

    /// The name of the file that stores this entry.
    pub fn filename(&self) -> (r: String)
        ensures
            r@ == filename_of(self@.name),
    {
        name_to_filename(self.name.as_str())
    }

    /// The path of the file that stores this entry in the directory `dir`.
    pub fn filepath(&self, dir: &str) -> (r: String)
        ensures
            r@ == join_path(dir@, filename_of(self@.name)),
    {
        name_to_desktop_file_path(dir, self.name.as_str())
    }

    pub fn get_name(&self) -> (r: &str)
        ensures
            r@ == self@.name,
    {
        self.name.as_str()
    }

    pub fn get_type(&self) -> (r: &str)
        ensures
            r@ == self@.kind,
    {
        self.shortcut_type.as_str()
    }

    pub fn get_comment(&self) -> (r: &str)
        ensures
            r@ == self@.comment,
    {
        self.comment.as_str()
    }

    pub fn get_path(&self) -> (r: &str)
        ensures
            r@ == self@.path,
    {
        self.path.as_str()
    }

    pub fn get_exec(&self) -> (r: &str)
        ensures
            r@ == self@.command,
    {
        self.command.as_str()
    }

    pub fn get_icon(&self) -> (r: &str)
        ensures
            r@ == self@.icon,
    {
        self.icon.as_str()
    }

    pub fn get_terminal(&self) -> (r: bool)
        ensures
            r == self@.terminal,
    {
        self.terminal
    }

    pub fn get_categories(&self) -> (r: &str)
        ensures
            r@ == self@.categories,
    {
        self.categories.as_str()
    }

    /// A short description for listings; not every field is shown.
    pub fn display(&self) -> (r: String)
        ensures
            r@ == display_of(self@),
    {
        let mut r = String::new();
        push_str(&mut r, self.name.as_str());
        if self.path.unicode_len() > 0 {
            push_all(&mut r, &vec!['\n', '\t', 'c', 'd', ' ']);
            push_str(&mut r, self.path.as_str());
        }
        push_all(&mut r, &vec!['\n', '\t', 'e', 'x', 'e', 'c', ' ']);
        push_str(&mut r, self.command.as_str());
        assert(r@ =~= display_of(self@));
        r
    }

    /// The text of the file that stores this entry.
    pub fn write(&self) -> (r: String)
        ensures
            r@ == serialize(self@),
    {
        make_desktop(
            self.name.as_str(),
            self.comment.as_str(),
            self.path.as_str(),
            self.command.as_str(),
            self.icon.as_str(),
            self.terminal,
            self.categories.as_str(),
        )
    }
}

} // verus!
