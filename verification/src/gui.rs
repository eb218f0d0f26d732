//! The requests of the front end, and what becomes of those that concern the
//! settings: the new settings are put together from the front end's texts and
//! take effect only if their exclude patterns compile.

use vstd::prelude::*;
use vstd::string::StrSliceExecFns;
use crate::compact::{of_name, Compression};
use crate::config::{
    all_accepted, first_refusal, texts, Config, ConfigFile, ConfigFileView, ConfigView,
};

verus! {

/// A message of the front end.
#[derive(Debug, Clone)]
pub enum GuiRequest {
    OpenUrl { url: String },
    SaveConfig { decimal: bool, compression: String, excludes: String },
    ResetConfig,
    ChooseFolder,
    Compress,
    Decompress,
    Pause,
    Resume,
    Analyse,
    Stop,
    Quit,
}

/// The lines of a text: what stands between its line feeds. A text without a
/// line feed is one line, and so is the empty text.
pub open spec fn lines_of(text: Seq<char>) -> Seq<Seq<char>>
    decreases text.len(),
{
    if text.len() == 0 {
        seq![Seq::<char>::empty()]
    } else {
        let before = lines_of(text.drop_last());
        if text.last() == '\n' {
            before.push(Seq::<char>::empty())
        } else {
            before.drop_last().push(before.last().push(text.last()))
        }
    }
}

/// A text has at least one line.
pub proof fn lemma_lines_nonempty(text: Seq<char>)
    ensures
        lines_of(text).len() >= 1,
    decreases text.len(),
{
    if text.len() > 0 {
        lemma_lines_nonempty(text.drop_last());
    }
}

/// The text made of lines with a line feed between each two.
pub open spec fn join_lines(lines: Seq<Seq<char>>) -> Seq<char>
    decreases lines.len(),
{
    if lines.len() == 0 {
        Seq::empty()
    } else if lines.len() == 1 {
        lines[0]
    } else {
        join_lines(lines.drop_last()) + seq!['\n'] + lines.last()
    }
}

/// The lines of a text hold no line feed, and put together again with line
/// feeds between them they are the text.
pub proof fn lemma_lines_rejoin(text: Seq<char>)
    ensures
        join_lines(lines_of(text)) =~= text,
        forall|i: int, j: int|
            0 <= i < lines_of(text).len() && 0 <= j < lines_of(text)[i].len() ==> lines_of(
                text,
            )[i][j] != '\n',
    decreases text.len(),
{
    if text.len() > 0 {
        let shorter = text.drop_last();
        lemma_lines_rejoin(shorter);
        lemma_lines_nonempty(shorter);
        let before = lines_of(shorter);
        let after = lines_of(text);
        if text.last() == '\n' {
            assert(after.drop_last() =~= before);
            assert(join_lines(after) =~= join_lines(before) + seq!['\n'] + Seq::<char>::empty());
            assert(shorter + seq!['\n'] =~= text);
        } else {
            let grown = before.last().push(text.last());
            assert(after.last() == grown);
            assert(after.drop_last() =~= before.drop_last());
            if before.len() == 1 {
                assert(join_lines(before) == before[0]);
                assert(join_lines(after) == grown);
                assert(grown =~= text);
            } else {
                assert(join_lines(before) == join_lines(before.drop_last()) + seq!['\n']
                    + before.last());
                assert(join_lines(after) =~= join_lines(before) + seq![text.last()]);
                assert(shorter + seq![text.last()] =~= text);
            }
            assert forall|i: int, j: int|
                0 <= i < after.len() && 0 <= j < after[i].len() implies after[i][j] != '\n' by {
                if i < after.len() - 1 {
                    assert(after[i] == before[i]);
                } else if j < before.last().len() {
                    assert(after[i][j] == before[i][j]);
                }
            }
        }
    }
}

/// The lines of a text, as `lines_of` gives them.
pub fn split_lines(text: &str) -> (lines: Vec<String>)
    ensures
        texts(lines@) == lines_of(text@),
{
    let n = text.unicode_len();
    let mut lines: Vec<String> = Vec::new();
    let mut start: usize = 0;
    let mut i: usize = 0;
    proof {
        assert(text@.subrange(0, 0) =~= Seq::<char>::empty());
        assert(texts(lines@).push(text@.subrange(0, 0)) =~= seq![Seq::<char>::empty()]);
    }
    while i < n
        invariant
            start <= i <= n,
            n == text@.len(),
            lines_of(text@.subrange(0, i as int)) == texts(lines@).push(
                text@.subrange(start as int, i as int),
            ),
        decreases n - i,
    {
        let c = text.get_char(i);
        let ghost upto = text@.subrange(0, i as int);
        let ghost next = text@.subrange(0, i + 1);
        let ghost done = texts(lines@);
        let ghost line = text@.subrange(start as int, i as int);
        proof {
            assert(next.drop_last() =~= upto);
            assert(next.last() == c);
            assert(done.push(line).drop_last() =~= done);
        }
        if c == '\n' {
            lines.push(text.substring_char(start, i).to_owned());
            start = i + 1;
            proof {
                assert(texts(lines@) =~= done.push(line));
                assert(text@.subrange(start as int, i + 1) =~= Seq::<char>::empty());
            }
        } else {
            proof {
                assert(text@.subrange(start as int, i + 1) =~= line.push(c));
            }
        }
        i = i + 1;
    }
    let ghost done = texts(lines@);
    lines.push(text.substring_char(start, n).to_owned());
    proof {
        assert(text@.subrange(0, n as int) =~= text@);
        assert(texts(lines@) =~= done.push(text@.subrange(start as int, n as int)));
    }
    lines
}

/// The settings the front end asks for: the algorithm its text names, or the
/// default one where it names none, and one exclude pattern per line.
pub open spec fn requested_config(decimal: bool, compression: Seq<char>, excludes: Seq<char>) -> ConfigView {
    ConfigView {
        decimal,
        compression: match of_name(compression) {
            Some(c) => c,
            None => Compression::Xpress8k,
        },
        excludes: lines_of(excludes),
    }
}

/// Puts settings together from the texts of the front end.
pub fn config_from_request(decimal: bool, compression: &str, excludes: &str) -> (c: Config)
    ensures
        c@ == requested_config(decimal, compression@, excludes@),
{
    let compression = match Compression::from_name(compression) {
        Some(c) => c,
        None => Compression::default(),
    };
    Config { decimal, compression, excludes: split_lines(excludes) }
}

/// What became of a request.
#[derive(Debug)]
pub enum Handled {
    /// A link is to be opened.
    OpenUrl(String),
    /// These settings are in force now and are to be stored.
    Saved(Config),
    /// The settings asked for were refused, for this reason; nothing changed.
    Rejected(String),
    /// The request is for the backend.
    Forward(GuiRequest),
}

/// Puts settings in force if their patterns were found to compile, and
/// leaves everything as it is if they were not.
pub fn apply_config(file: &mut ConfigFile, config: Config, checked: Result<(), String>) -> (h:
    Handled)
    ensures
        match checked {
            Ok(_) => {
                &&& h matches Handled::Saved(c)
                &&& c@ == config@
                &&& final(file)@ == (ConfigFileView { config: config@, ..old(file)@ })
            },
            Err(reason) => {
                &&& h matches Handled::Rejected(r)
                &&& r == reason
                &&& final(file)@ == old(file)@
            },
        },
{
    match checked {
        Ok(_) => {
            file.replace(config.duplicate());
            Handled::Saved(config)
        },
        Err(reason) => Handled::Rejected(reason),
    }
}

/// Takes a request of the front end. A request to save settings puts them in
/// force if their exclude patterns compile and is refused if they do not,
/// with the parser's message on the first pattern it refuses where there is
/// one; a
/// request to reset puts the default settings in force; a link is handed
/// back to be opened; every other request is for the backend and changes
/// nothing here.
pub fn handle_request(file: &mut ConfigFile, request: GuiRequest) -> (h: Handled)
    ensures
        match request {
            GuiRequest::OpenUrl { url } => {
                &&& h matches Handled::OpenUrl(u)
                &&& u == url
                &&& final(file)@ == old(file)@
            },
            GuiRequest::SaveConfig { decimal, compression, excludes } => {
                let wanted = requested_config(decimal, compression@, excludes@);
                match h {
                    Handled::Saved(c) => {
                        &&& all_accepted(wanted.excludes)
                        &&& c@ == wanted
                        &&& final(file)@ == (ConfigFileView { config: wanted, ..old(file)@ })
                    },
                    Handled::Rejected(reason) => {
                        &&& final(file)@ == old(file)@
                        &&& !all_accepted(wanted.excludes) ==> Some(reason@) == first_refusal(
                            wanted.excludes,
                        )
                    },
                    _ => false,
                }
            },
            GuiRequest::ResetConfig => {
                &&& h matches Handled::Saved(c)
                &&& c@ == Config::default_view()
                &&& final(file)@ == (ConfigFileView { config: c@, ..old(file)@ })
            },
            _ => h matches Handled::Forward(r) && r == request && final(file)@ == old(file)@,
        },
{
    match request {
        GuiRequest::OpenUrl { url } => Handled::OpenUrl(url),
        GuiRequest::SaveConfig { decimal, compression, excludes } => {
            let config = config_from_request(decimal, compression.as_str(), excludes.as_str());
            let checked = match config.globset() {
                Ok(_) => Ok(()),
                Err(reason) => Err(reason),
            };
            apply_config(file, config, checked)
        },
        GuiRequest::ResetConfig => apply_config(file, Config::default(), Ok(())),
        other => Handled::Forward(other),
    }
}

} // verus!
