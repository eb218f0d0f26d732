//! The settings of the tool: how sizes are shown, the algorithm to compress
//! with, and the glob patterns of the files to leave alone.

use vstd::prelude::*;
use crate::compact::Compression;
use globset::{Glob, GlobBuilder, GlobSet, GlobSetBuilder};

verus! {

/// `globset::Glob`: one parsed pattern.
#[verifier::external_type_specification]
#[verifier::external_body]
pub struct ExGlob(Glob);

/// `globset::GlobSetBuilder`: the patterns gathered for a set.
#[verifier::external_type_specification]
#[verifier::external_body]
pub struct ExGlobSetBuilder(GlobSetBuilder);

/// `globset::GlobSet`: patterns compiled to be matched together.
#[verifier::external_type_specification]
#[verifier::external_body]
pub struct ExGlobSet(GlobSet);

/// `globset::Error`: why a pattern or a set was refused.
#[verifier::external_type_specification]
#[verifier::external_body]
pub struct ExGlobError(globset::Error);

/// The text a pattern was parsed from.
pub uninterp spec fn glob_text(glob: Glob) -> Seq<char>;

/// The texts of the patterns a builder holds, in the order they were added.
pub uninterp spec fn builder_patterns(builder: GlobSetBuilder) -> Seq<Seq<char>>;

/// The number of patterns a set was built from.
pub uninterp spec fn globset_len(set: GlobSet) -> nat;

/// The message an error of the pattern matcher is shown with.
pub uninterp spec fn error_message(error: globset::Error) -> Seq<char>;

/// What the glob parser objects to in a pattern in which a backslash stands
/// for itself: nothing if it accepts the pattern, else the message of its
/// error.
pub uninterp spec fn glob_refusal(pattern: Seq<char>) -> Option<Seq<char>>;

/// Whether the glob parser accepts a pattern in which a backslash stands for
/// itself.
pub open spec fn glob_accepted(pattern: Seq<char>) -> bool {
    glob_refusal(pattern) is None
}

/// Parses a pattern with `globset::GlobBuilder::build`, after
/// `backslash_escape(false)`: a backslash in a pattern stands for itself, as
/// it does in the paths the patterns are held against. What the parser
/// answers depends on the pattern's text alone; the contract gives that
/// answer its name and says nothing of which patterns are accepted. A
/// pattern that was accepted keeps its text (`Glob::glob`); the error of one
/// that was refused carries the message named.
#[verifier::external_body]
fn parse_glob(pattern: &str) -> (r: Result<Glob, globset::Error>)
    ensures
        match r {
            Ok(glob) => glob_refusal(pattern@) is None && glob_text(glob) == pattern@,
            Err(error) => glob_refusal(pattern@) == Some(error_message(error)),
        },
{
    GlobBuilder::new(pattern).backslash_escape(false).build()
}

/// `globset::GlobSetBuilder::new`: a builder without patterns.
#[verifier::external_body]
fn new_builder() -> (builder: GlobSetBuilder)
    ensures
        builder_patterns(builder) == Seq::<Seq<char>>::empty(),
{
    GlobSetBuilder::new()
}

/// `globset::GlobSetBuilder::add`: the pattern is appended to those held.
#[verifier::external_body]
fn builder_add(builder: &mut GlobSetBuilder, glob: Glob)
    ensures
        builder_patterns(*final(builder)) == builder_patterns(*old(builder)).push(glob_text(glob)),
{
    builder.add(glob);
}

/// `globset::GlobSetBuilder::build`, which hands the builder's patterns to
/// `GlobSet::new`: a set that was built counts as many patterns as the
/// builder holds. A builder without patterns always gives a set, the empty
/// one; whether other patterns can be compiled together is left open, for it
/// rests on a limit of memory that is not the same on every machine.
#[verifier::external_body]
fn builder_build(builder: &GlobSetBuilder) -> (r: Result<GlobSet, globset::Error>)
    ensures
        r is Ok ==> globset_len(r.unwrap()) == builder_patterns(*builder).len(),
        builder_patterns(*builder).len() == 0 ==> r is Ok,
{
    builder.build()
}

/// The message of a `globset::Error`, as its `Display` impl writes it.
#[verifier::external_body]
fn error_text(error: &globset::Error) -> (text: String)
    ensures
        text@ == error_message(*error),
{
    error.to_string()
}

/// `globset::GlobSet::is_match`: whether any pattern of the set matches the
/// path. Nothing is claimed of the answer.
#[verifier::external_body]
pub(crate) fn is_excluded(excludes: &GlobSet, path: &str) -> (excluded: bool) {
    excludes.is_match(path)
}

/// The texts of a sequence of strings.
pub open spec fn texts(strings: Seq<String>) -> Seq<Seq<char>> {
    strings.map_values(|s: String| s@)
}

/// Every pattern of the sequence is accepted by the glob parser.
pub open spec fn all_accepted(patterns: Seq<Seq<char>>) -> bool {
    forall|i: int| 0 <= i < patterns.len() ==> glob_accepted(#[trigger] patterns[i])
}

/// What the glob parser objects to in the first pattern of the sequence
/// that it refuses; nothing if it accepts them all.
pub open spec fn first_refusal(patterns: Seq<Seq<char>>) -> Option<Seq<char>>
    decreases patterns.len(),
{
    if patterns.len() == 0 {
        None
    } else {
        match first_refusal(patterns.drop_last()) {
            Some(reason) => Some(reason),
            None => glob_refusal(patterns.last()),
        }
    }
}

/// There is a first refusal exactly if not every pattern is accepted.
pub proof fn lemma_first_refusal(patterns: Seq<Seq<char>>)
    ensures
        first_refusal(patterns) is None <==> all_accepted(patterns),
    decreases patterns.len(),
{
    if patterns.len() > 0 {
        let shorter = patterns.drop_last();
        lemma_first_refusal(shorter);
        if all_accepted(patterns) {
            assert forall|i: int| 0 <= i < shorter.len() implies glob_accepted(
                #[trigger] shorter[i],
            ) by {
                assert(shorter[i] == patterns[i]);
            }
            assert(glob_accepted(patterns[patterns.len() - 1]));
        }
        if first_refusal(patterns) is None {
            assert forall|i: int| 0 <= i < patterns.len() implies glob_accepted(
                #[trigger] patterns[i],
            ) by {
                if i < shorter.len() {
                    assert(shorter[i] == patterns[i]);
                }
            }
        }
    }
}

/// A refusal found among the first patterns of a sequence is the first
/// refusal of the whole sequence.
pub proof fn lemma_first_refusal_stays(patterns: Seq<Seq<char>>, upto: int)
    requires
        0 <= upto <= patterns.len(),
        first_refusal(patterns.subrange(0, upto)) is Some,
    ensures
        first_refusal(patterns) == first_refusal(patterns.subrange(0, upto)),
    decreases patterns.len() - upto,
{
    if upto < patterns.len() {
        let longer = patterns.subrange(0, upto + 1);
        assert(longer.drop_last() =~= patterns.subrange(0, upto));
        lemma_first_refusal_stays(patterns, upto + 1);
    } else {
        assert(patterns.subrange(0, upto) =~= patterns);
    }
}

/// The patterns excluded unless the user says otherwise.
pub open spec fn default_excludes() -> Seq<Seq<char>> {
    seq![
        "*:\\Windows*"@,
        "*:\\System Volume Information*"@,
        "*:\\$*"@,
        "*.7z"@,
        "*.aac"@,
        "*.avi"@,
        "*.ba"@,
        "*.{bik,bk2,bnk,pc_binkvid}"@,
        "*.br"@,
        "*.bz2"@,
        "*.cab"@,
        "*.dl_"@,
        "*.docx"@,
        "*.flac"@,
        "*.flv"@,
        "*.gif"@,
        "*.gz"@,
        "*.jpeg"@,
        "*.jpg"@,
        "*.log"@,
        "*.lz4"@,
        "*.lzma"@,
        "*.lzx"@,
        "*.m[24]v"@,
        "*.m4a"@,
        "*.mkv"@,
        "*.mp[234]"@,
        "*.mpeg"@,
        "*.mpg"@,
        "*.ogg"@,
        "*.onepkg"@,
        "*.png"@,
        "*.pptx"@,
        "*.rar"@,
        "*.upk"@,
        "*.vob"@,
        "*.vs[st]x"@,
        "*.wem"@,
        "*.webm"@,
        "*.wm[afv]"@,
        "*.xap"@,
        "*.xnb"@,
        "*.xlsx"@,
        "*.xz"@,
        "*.zst"@,
        "*.zstd"@,
    ]
}

/// The mathematical content of the settings.
pub struct ConfigView {
    pub decimal: bool,
    pub compression: Compression,
    pub excludes: Seq<Seq<char>>,
}

/// The settings.
#[derive(Debug, Clone)]
pub struct Config {
    /// Whether sizes are shown in decimal units.
    pub decimal: bool,
    /// The algorithm to compress with.
    pub compression: Compression,
    /// Glob patterns of the files to leave alone.
    pub excludes: Vec<String>,
}

impl View for Config {
    type V = ConfigView;

    open spec fn view(&self) -> ConfigView {
        ConfigView {
            decimal: self.decimal,
            compression: self.compression,
            excludes: texts(self.excludes@),
        }
    }
}

impl Default for Config {
    /// Binary units, the default algorithm and the default patterns.
    fn default() -> (c: Self)
        ensures
            c@ == (ConfigView {
                decimal: false,
                compression: Compression::Xpress8k,
                excludes: default_excludes(),
            }),
    {
        let mut excludes: Vec<String> = Vec::new();
        excludes.push("*:\\Windows*".to_owned());
        excludes.push("*:\\System Volume Information*".to_owned());
        excludes.push("*:\\$*".to_owned());
        excludes.push("*.7z".to_owned());
        excludes.push("*.aac".to_owned());
        excludes.push("*.avi".to_owned());
        excludes.push("*.ba".to_owned());
        excludes.push("*.{bik,bk2,bnk,pc_binkvid}".to_owned());
        excludes.push("*.br".to_owned());
        excludes.push("*.bz2".to_owned());
        excludes.push("*.cab".to_owned());
        excludes.push("*.dl_".to_owned());
        excludes.push("*.docx".to_owned());
        excludes.push("*.flac".to_owned());
        excludes.push("*.flv".to_owned());
        excludes.push("*.gif".to_owned());
        excludes.push("*.gz".to_owned());
        excludes.push("*.jpeg".to_owned());
        excludes.push("*.jpg".to_owned());
        excludes.push("*.log".to_owned());
        excludes.push("*.lz4".to_owned());
        excludes.push("*.lzma".to_owned());
        excludes.push("*.lzx".to_owned());
        excludes.push("*.m[24]v".to_owned());
        excludes.push("*.m4a".to_owned());
        excludes.push("*.mkv".to_owned());
        excludes.push("*.mp[234]".to_owned());
        excludes.push("*.mpeg".to_owned());
        excludes.push("*.mpg".to_owned());
        excludes.push("*.ogg".to_owned());
        excludes.push("*.onepkg".to_owned());
        excludes.push("*.png".to_owned());
        excludes.push("*.pptx".to_owned());
        excludes.push("*.rar".to_owned());
        excludes.push("*.upk".to_owned());
        excludes.push("*.vob".to_owned());
        excludes.push("*.vs[st]x".to_owned());
        excludes.push("*.wem".to_owned());
        excludes.push("*.webm".to_owned());
        excludes.push("*.wm[afv]".to_owned());
        excludes.push("*.xap".to_owned());
        excludes.push("*.xnb".to_owned());
        excludes.push("*.xlsx".to_owned());
        excludes.push("*.xz".to_owned());
        excludes.push("*.zst".to_owned());
        excludes.push("*.zstd".to_owned());
        assert(texts(excludes@) =~= default_excludes());
        Config { decimal: false, compression: Compression::default(), excludes }
    }
}

impl Config {
    /// A copy of these settings.
    pub fn duplicate(&self) -> (c: Self)
        ensures
            c@ == self@,
    {
        let mut excludes: Vec<String> = Vec::new();
        let n = self.excludes.len();
        let mut i: usize = 0;
        while i < n
            invariant
                i <= n,
                n == self.excludes@.len(),
                excludes@.len() == i,
                texts(excludes@) == texts(self.excludes@).subrange(0, i as int),
            decreases n - i,
        {
            let ghost before = excludes@;
            excludes.push(self.excludes[i].clone());
            proof {
                let copied = texts(excludes@);
                let wanted = texts(self.excludes@).subrange(0, i + 1);
                assert forall|j: int| 0 <= j < copied.len() implies copied[j] == wanted[j] by {
                    if j < i {
                        assert(excludes@[j] == before[j]);
                        assert(texts(before)[j] == texts(self.excludes@).subrange(0, i as int)[j]);
                    }
                }
                assert(copied =~= wanted);
            }
            i = i + 1;
        }
        proof {
            assert(texts(self.excludes@).subrange(0, n as int) =~= texts(self.excludes@));
        }
        Config { decimal: self.decimal, compression: self.compression, excludes }
    }

    /// Compiles the exclude patterns into one set. Every pattern is parsed,
    /// in order, and the first one the parser refuses ends the work with the
    /// parser's message. So a set is returned only if the parser accepts every
    /// pattern, and it then counts exactly these patterns. Without patterns
    /// the empty set is returned. Whether patterns that were all accepted can
    /// be compiled together is for the compiler of the set to say; if they
    /// cannot, its message is returned.
    pub fn globset(&self) -> (r: Result<GlobSet, String>)
        ensures
            r is Ok ==> all_accepted(self@.excludes) && globset_len(r.unwrap())
                == self@.excludes.len(),
            !all_accepted(self@.excludes) ==> r is Err && Some(r.unwrap_err()@) == first_refusal(
                self@.excludes,
            ),
            self@.excludes.len() == 0 ==> r is Ok,
    {
        let ghost patterns = texts(self.excludes@);
        let mut builder = new_builder();
        let n = self.excludes.len();
        let mut i: usize = 0;
        proof {
            assert(patterns.subrange(0, 0) =~= Seq::<Seq<char>>::empty());
        }
        while i < n
            invariant
                i <= n,
                n == self.excludes@.len(),
                patterns == texts(self.excludes@),
                builder_patterns(builder) == patterns.subrange(0, i as int),
                first_refusal(patterns.subrange(0, i as int)) is None,
            decreases n - i,
        {
            let parsed = parse_glob(self.excludes[i].as_str());
            proof {
                assert(patterns.subrange(0, i + 1).drop_last() =~= patterns.subrange(0, i as int));
                assert(patterns.subrange(0, i + 1).last() == self.excludes@[i as int]@);
            }
            match parsed {
                Ok(glob) => {
                    builder_add(&mut builder, glob);
                },
                Err(e) => {
                    proof {
                        lemma_first_refusal_stays(patterns, i + 1);
                        lemma_first_refusal(patterns);
                    }
                    return Err(error_text(&e));
                },
            }
            proof {
                assert(builder_patterns(builder) =~= patterns.subrange(0, i + 1));
            }
            i = i + 1;
        }
        proof {
            assert(patterns.subrange(0, n as int) =~= patterns);
            lemma_first_refusal(patterns);
        }
        match builder_build(&builder) {
            Ok(set) => Ok(set),
            Err(e) => Err(error_text(&e)),
        }
    }
}

/// The settings and the file they are kept in.
#[derive(Debug)]
pub struct ConfigFile {
    backing: Option<String>,
    config: Config,
}

/// The mathematical content of a settings file.
pub struct ConfigFileView {
    pub backing: Option<Seq<char>>,
    pub config: ConfigView,
}

impl View for ConfigFile {
    type V = ConfigFileView;

    closed spec fn view(&self) -> ConfigFileView {
        ConfigFileView {
            backing: match self.backing {
                Some(p) => Some(p@),
                None => None,
            },
            config: self.config@,
        }
    }
}

impl Default for ConfigFile {
    /// The default settings, kept in no file.
    fn default() -> (f: Self)
        ensures
            f@.backing is None,
            f@.config == Config::default_view(),
    {
        ConfigFile { backing: None, config: Config::default() }
    }
}

impl Config {
    /// The content of the default settings.
    pub open spec fn default_view() -> ConfigView {
        ConfigView {
            decimal: false,
            compression: Compression::Xpress8k,
            excludes: default_excludes(),
        }
    }
}

impl ConfigFile {
    /// The settings kept at `path`: those that were `stored` there, or the
    /// default ones where nothing usable was stored.
    pub fn new(path: &str, stored: Option<Config>) -> (f: Self)
        ensures
            f@.backing == Some(path@),
            f@.config == match stored {
                Some(c) => c@,
                None => Config::default_view(),
            },
    {
        let config = match stored {
            Some(c) => c,
            None => Config::default(),
        };
        ConfigFile { backing: Some(path.to_owned()), config }
    }

    /// The file the settings are kept in, if there is one.
    pub fn backing(&self) -> (p: Option<&String>)
        ensures
            match p {
                Some(s) => self@.backing == Some(s@),
                None => self@.backing is None,
            },
    {
        self.backing.as_ref()
    }

    /// A copy of the settings.
    pub fn current(&self) -> (c: Config)
        ensures
            c@ == self@.config,
    {
        self.config.duplicate()
    }

    /// Puts other settings in place of the current ones.
    pub fn replace(&mut self, c: Config)
        ensures
            final(self)@.config == c@,
            final(self)@.backing == old(self)@.backing,
    {
        self.config = c;
    }
}

} // verus!
