//! The variant classifier: from the expanded text to the library variant,
//! its version and the configuration options it was built with.
//!
//! The text is read line by line. A line counts, once trimmed, if it begins
//! with one of five markers; every other line is ignored.

use crate::error::Error;
use crate::text::{chars_of, find_sep, has_prefix, lines, split_from, starts_with, trim, trim_range};
use crate::variant::{mainline_variant, mainline_variant_of, Variant};
use crate::version::{dotted_version, hex_version, parse_new_version_range, parse_version_range};
use vstd::prelude::*;

verus! {

/// The marker before a mainline version in hexadecimal form.
pub open spec fn mainline_hex_marker() -> Seq<char> {
    "RUST_VERSION_OPENSSL_"@
}

/// The marker before a mainline version in dotted form.
pub open spec fn mainline_dotted_marker() -> Seq<char> {
    "RUST_VERSION_NEW_OPENSSL_"@
}

/// The marker before a version of the LibreSSL-like fork.
pub open spec fn fork_a_marker() -> Seq<char> {
    "RUST_VERSION_LIBRESSL_"@
}

/// The marker that only the BoringSSL-like fork emits.
pub open spec fn fork_b_marker() -> Seq<char> {
    "RUST_OPENSSL_IS_BORINGSSL"@
}

/// The marker before the name of an enabled configuration option.
pub open spec fn config_marker() -> Seq<char> {
    "RUST_CONF_"@
}

/// What one line of the text says.
pub enum Fact {
    /// The mainline library's version.
    Mainline(u64),
    /// The version of the LibreSSL-like fork.
    ForkA(u64),
    /// The library is the BoringSSL-like fork.
    ForkB,
    /// A configuration option is enabled.
    Config(Seq<char>),
    /// A version marker with something else than a version behind it.
    Malformed,
    /// Nothing that matters here.
    Nothing,
}

/// What `line` says: the markers are tried in a fixed order on the trimmed
/// line, and the first that fits decides.
pub open spec fn fact_of(line: Seq<char>) -> Fact {
    let t = trim(line);
    if has_prefix(t, mainline_hex_marker()) {
        match hex_version(t.skip(mainline_hex_marker().len() as int)) {
            Ok(version) => Fact::Mainline(version),
            Err(_) => Fact::Malformed,
        }
    } else if has_prefix(t, mainline_dotted_marker()) {
        match dotted_version(t.skip(mainline_dotted_marker().len() as int)) {
            Ok(version) => Fact::Mainline(version),
            Err(_) => Fact::Malformed,
        }
    } else if has_prefix(t, fork_a_marker()) {
        match hex_version(t.skip(fork_a_marker().len() as int)) {
            Ok(version) => Fact::ForkA(version),
            Err(_) => Fact::Malformed,
        }
    } else if has_prefix(t, fork_b_marker()) {
        Fact::ForkB
    } else if has_prefix(t, config_marker()) {
        Fact::Config(t.skip(config_marker().len() as int))
    } else {
        Fact::Nothing
    }
}

/// What the lines read so far have said.
pub struct Facts {
    /// The latest mainline version.
    pub mainline: Option<u64>,
    /// The latest version of the LibreSSL-like fork.
    pub fork_a: Option<u64>,
    /// Whether the BoringSSL-like fork has shown itself.
    pub fork_b: bool,
    /// The enabled configuration options, in the order of the text.
    pub tokens: Seq<Seq<char>>,
}

/// Nothing has been said yet.
pub open spec fn no_facts() -> Facts {
    Facts { mainline: None, fork_a: None, fork_b: false, tokens: Seq::empty() }
}

/// `facts` after one more line has said `fact`. A later version replaces an
/// earlier one of the same kind; options accumulate, repeats included.
pub open spec fn absorb(facts: Facts, fact: Fact) -> Facts {
    match fact {
        Fact::Mainline(version) => Facts { mainline: Some(version), ..facts },
        Fact::ForkA(version) => Facts { fork_a: Some(version), ..facts },
        Fact::ForkB => Facts { fork_b: true, ..facts },
        Fact::Config(token) => Facts { tokens: facts.tokens.push(token), ..facts },
        Fact::Malformed => facts,
        Fact::Nothing => facts,
    }
}

/// What `lines` say together, or the failure of the first malformed line.
pub open spec fn gather(lines: Seq<Seq<char>>) -> Result<Facts, Error>
    decreases lines.len(),
{
    if lines.len() == 0 {
        Ok(no_facts())
    } else {
        match gather(lines.drop_last()) {
            Err(e) => Err(e),
            Ok(facts) => match fact_of(lines.last()) {
                Fact::Malformed => Err(Error::MalformedVersionToken),
                fact => Ok(absorb(facts, fact)),
            },
        }
    }
}

/// The result of a classification, as mathematical values.
pub struct Classification {
    pub variant: Variant,
    pub encoded_version: Option<u64>,
    pub config_tokens: Seq<Seq<char>>,
}

/// The verdict on the gathered facts. The BoringSSL-like fork overrides
/// everything else, and its result carries no version. Then the
/// LibreSSL-like fork goes before the mainline library. Without any of
/// them there is no library.
pub open spec fn conclude(facts: Facts) -> Result<Classification, Error> {
    if facts.fork_b {
        Ok(
            Classification {
                variant: Variant::ForkB,
                encoded_version: None,
                config_tokens: facts.tokens,
            },
        )
    } else if facts.fork_a is Some {
        Ok(
            Classification {
                variant: Variant::ForkA,
                encoded_version: facts.fork_a,
                config_tokens: facts.tokens,
            },
        )
    } else {
        match facts.mainline {
            Some(version) => Ok(
                Classification {
                    variant: mainline_variant(version),
                    encoded_version: Some(version),
                    config_tokens: facts.tokens,
                },
            ),
            None => Err(Error::NoVersionFound),
        }
    }
}

/// The classification of `text`.
pub open spec fn classification(text: Seq<char>) -> Result<Classification, Error> {
    match gather(lines(text)) {
        Err(e) => Err(e),
        Ok(facts) => conclude(facts),
    }
}

/// The views of a list of strings.
pub open spec fn texts(strings: Seq<String>) -> Seq<Seq<char>> {
    strings.map_values(|s: String| s@)
}

/// The result of a classification.
#[derive(Clone, Debug, PartialEq, Eq)]
pub struct ClassificationResult {
    /// The variant that was found.
    pub variant: Variant,
    /// The version of that variant; the BoringSSL-like fork has none.
    pub encoded_version: Option<u64>,
    /// The enabled configuration options, in the order of the text.
    pub config_tokens: Vec<String>,
}

impl View for ClassificationResult {
    type V = Classification;

    open spec fn view(&self) -> Classification {
        Classification {
            variant: self.variant,
            encoded_version: self.encoded_version,
            config_tokens: texts(self.config_tokens@),
        }
    }
}

/// The five markers, as characters.
pub struct Markers {
    pub mainline_hex: Vec<char>,
    pub mainline_dotted: Vec<char>,
    pub fork_a: Vec<char>,
    pub fork_b: Vec<char>,
    pub config: Vec<char>,
}

impl Markers {
    /// Each field holds its marker.
    pub open spec fn wf(&self) -> bool {
        &&& self.mainline_hex@ == mainline_hex_marker()
        &&& self.mainline_dotted@ == mainline_dotted_marker()
        &&& self.fork_a@ == fork_a_marker()
        &&& self.fork_b@ == fork_b_marker()
        &&& self.config@ == config_marker()
    }

    /// The markers.
    pub fn new() -> (markers: Markers)
        ensures
            markers.wf(),
    {
        Markers {
            mainline_hex: chars_of("RUST_VERSION_OPENSSL_"),
            mainline_dotted: chars_of("RUST_VERSION_NEW_OPENSSL_"),
            fork_a: chars_of("RUST_VERSION_LIBRESSL_"),
            fork_b: chars_of("RUST_OPENSSL_IS_BORINGSSL"),
            config: chars_of("RUST_CONF_"),
        }
    }
}

/// What one line says, with a configuration option given by its place in
/// the text.
#[derive(Clone, Copy, Debug, PartialEq, Eq)]
pub enum Observation {
    Mainline(u64),
    ForkA(u64),
    ForkB,
    Config { from: usize, to: usize },
    Malformed,
    Nothing,
}

impl Observation {
    /// The fact that this observation stands for in `text`.
    pub open spec fn fact(self, text: Seq<char>) -> Fact {
        match self {
            Observation::Mainline(version) => Fact::Mainline(version),
            Observation::ForkA(version) => Fact::ForkA(version),
            Observation::ForkB => Fact::ForkB,
            Observation::Config { from, to } => Fact::Config(text.subrange(from as int, to as int)),
            Observation::Malformed => Fact::Malformed,
            Observation::Nothing => Fact::Nothing,
        }
    }
}

/// Reads the line of `chars` between `from` and `to`.
pub fn observe(chars: &Vec<char>, from: usize, to: usize, markers: &Markers) -> (seen: Observation)
    requires
        from <= to <= chars.len(),
        markers.wf(),
    ensures
        seen.fact(chars@) == fact_of(chars@.subrange(from as int, to as int)),
        seen matches Observation::Config { from: start, to: end } ==> start <= end <= chars.len(),
{
    let (a, b) = trim_range(chars, from, to);
    let ghost t = chars@.subrange(a as int, b as int);
    if starts_with(chars, a, b, &markers.mainline_hex) {
        let start: usize = a + markers.mainline_hex.len();
        proof {
            assert(t.skip(mainline_hex_marker().len() as int) =~= chars@.subrange(
                start as int,
                b as int,
            ));
        }
        match parse_version_range(chars, start, b) {
            Ok(version) => Observation::Mainline(version),
            Err(_) => Observation::Malformed,
        }
    } else if starts_with(chars, a, b, &markers.mainline_dotted) {
        let start: usize = a + markers.mainline_dotted.len();
        proof {
            assert(t.skip(mainline_dotted_marker().len() as int) =~= chars@.subrange(
                start as int,
                b as int,
            ));
        }
        match parse_new_version_range(chars, start, b) {
            Ok(version) => Observation::Mainline(version),
            Err(_) => Observation::Malformed,
        }
    } else if starts_with(chars, a, b, &markers.fork_a) {
        let start: usize = a + markers.fork_a.len();
        proof {
            assert(t.skip(fork_a_marker().len() as int) =~= chars@.subrange(
                start as int,
                b as int,
            ));
        }
        match parse_version_range(chars, start, b) {
            Ok(version) => Observation::ForkA(version),
            Err(_) => Observation::Malformed,
        }
    } else if starts_with(chars, a, b, &markers.fork_b) {
        Observation::ForkB
    } else if starts_with(chars, a, b, &markers.config) {
        let start: usize = a + markers.config.len();
        proof {
            assert(t.skip(config_marker().len() as int) =~= chars@.subrange(
                start as int,
                b as int,
            ));
        }
        Observation::Config { from: start, to: b }
    } else {
        Observation::Nothing
    }
}

/// Once a line is malformed, no later line changes the outcome.
pub proof fn lemma_failure_is_final(before: Seq<Seq<char>>, after: Seq<Seq<char>>)
    requires
        gather(before) is Err,
    ensures
        gather(before + after) == gather(before),
    decreases after.len(),
{
    if after.len() == 0 {
        assert(before + after =~= before);
    } else {
        lemma_failure_is_final(before, after.drop_last());
        assert((before + after).drop_last() =~= before + after.drop_last());
    }
}

/// Whether `result` is what the classification of `text` comes to.
pub open spec fn classifies(text: Seq<char>, result: Result<ClassificationResult, Error>) -> bool {
    match result {
        Ok(found) => classification(text) == Ok::<Classification, Error>(found@),
        Err(e) => classification(text) == Err::<Classification, Error>(e),
    }
}

/// Classifies the expanded text.
pub fn classify(text: &str) -> (result: Result<ClassificationResult, Error>)
    ensures
        classifies(text@, result),
{
    let chars = chars_of(text);
    let markers = Markers::new();
    let mut mainline: Option<u64> = None;
    let mut fork_a: Option<u64> = None;
    let mut fork_b: bool = false;
    let mut tokens: Vec<String> = Vec::new();
    let ghost mut done: Seq<Seq<char>> = Seq::empty();
    let mut pos: usize = 0;
    let mut finished: bool = false;
    proof {
        assert(Seq::<Seq<char>>::empty() + split_from(chars@, '\n', 0) =~= lines(chars@));
        assert(texts(tokens@) =~= Seq::<Seq<char>>::empty());
    }
    while !finished
        invariant
            chars@ == text@,
            markers.wf(),
            pos <= chars.len(),
            !finished ==> lines(chars@) == done + split_from(chars@, '\n', pos as int),
            finished ==> lines(chars@) == done,
            gather(done) == Ok::<Facts, Error>(
                Facts { mainline, fork_a, fork_b, tokens: texts(tokens@) },
            ),
        decreases chars.len() - pos + if finished { 0int } else { 1int },
    {
        let end = find_sep(&chars, '\n', pos);
        let ghost line = chars@.subrange(pos as int, end as int);
        let ghost read = done.push(line);
        proof {
            assert(read.drop_last() =~= done);
            assert(read.last() == line);
        }
        match observe(&chars, pos, end, &markers) {
            Observation::Mainline(version) => {
                mainline = Some(version);
            },
            Observation::ForkA(version) => {
                fork_a = Some(version);
            },
            Observation::ForkB => {
                fork_b = true;
            },
            Observation::Config { from, to } => {
                let token = text.substring_char(from, to).to_owned();
                proof {
                    assert(texts(tokens@.push(token)) =~= texts(tokens@).push(token@));
                }
                tokens.push(token);
            },
            Observation::Malformed => {
                proof {
                    assert(gather(read) == Err::<Facts, Error>(Error::MalformedVersionToken));
                    if end < chars.len() {
                        let rest = split_from(chars@, '\n', end + 1);
                        assert(lines(chars@) =~= read + rest);
                        lemma_failure_is_final(read, rest);
                    } else {
                        assert(lines(chars@) =~= read);
                    }
                }
                return Err(Error::MalformedVersionToken);
            },
            Observation::Nothing => {},
        }
        proof {
            if end < chars.len() {
                assert(lines(chars@) =~= read + split_from(chars@, '\n', end + 1));
            } else {
                assert(lines(chars@) =~= read);
            }
            done = read;
        }
        if end < chars.len() {
            pos = end + 1;
        } else {
            finished = true;
        }
    }
    if fork_b {
        Ok(
            ClassificationResult {
                variant: Variant::ForkB,
                encoded_version: None,
                config_tokens: tokens,
            },
        )
    } else if fork_a.is_some() {
        Ok(
            ClassificationResult {
                variant: Variant::ForkA,
                encoded_version: fork_a,
                config_tokens: tokens,
            },
        )
    } else {
        match mainline {
            Some(version) => Ok(
                ClassificationResult {
                    variant: mainline_variant_of(version),
                    encoded_version: Some(version),
                    config_tokens: tokens,
                },
            ),
            None => Err(Error::NoVersionFound),
        }
    }
}

/// Classifying the same text again gives the same again: the same failure,
/// or the same variant, version and options, character for character.
pub proof fn lemma_classify_repeats(
    text: Seq<char>,
    first: Result<ClassificationResult, Error>,
    second: Result<ClassificationResult, Error>,
)
    requires
        classifies(text, first),
        classifies(text, second),
    ensures
        match (first, second) {
            (Ok(a), Ok(b)) => a@ == b@,
            (Err(a), Err(b)) => a == b,
            _ => false,
        },
{
}

/// No line begins with two markers: the order in which they are tried
/// decides nothing.
pub proof fn lemma_markers_exclusive(line: Seq<char>)
    ensures
        !(has_prefix(line, mainline_hex_marker()) && has_prefix(line, mainline_dotted_marker())),
        !(has_prefix(line, mainline_hex_marker()) && has_prefix(line, fork_a_marker())),
        !(has_prefix(line, mainline_hex_marker()) && has_prefix(line, fork_b_marker())),
        !(has_prefix(line, mainline_hex_marker()) && has_prefix(line, config_marker())),
        !(has_prefix(line, mainline_dotted_marker()) && has_prefix(line, fork_a_marker())),
        !(has_prefix(line, mainline_dotted_marker()) && has_prefix(line, fork_b_marker())),
        !(has_prefix(line, mainline_dotted_marker()) && has_prefix(line, config_marker())),
        !(has_prefix(line, fork_a_marker()) && has_prefix(line, fork_b_marker())),
        !(has_prefix(line, fork_a_marker()) && has_prefix(line, config_marker())),
        !(has_prefix(line, fork_b_marker()) && has_prefix(line, config_marker())),
{
    reveal_strlit("RUST_VERSION_OPENSSL_");
    reveal_strlit("RUST_VERSION_NEW_OPENSSL_");
    reveal_strlit("RUST_VERSION_LIBRESSL_");
    reveal_strlit("RUST_OPENSSL_IS_BORINGSSL");
    reveal_strlit("RUST_CONF_");
    if has_prefix(line, mainline_hex_marker()) {
        let head = line.take(mainline_hex_marker().len() as int);
        assert(head[5] == line[5] && head[13] == line[13]);
    }
    if has_prefix(line, mainline_dotted_marker()) {
        let head = line.take(mainline_dotted_marker().len() as int);
        assert(head[5] == line[5] && head[13] == line[13]);
    }
    if has_prefix(line, fork_a_marker()) {
        let head = line.take(fork_a_marker().len() as int);
        assert(head[5] == line[5] && head[13] == line[13]);
    }
    if has_prefix(line, fork_b_marker()) {
        let head = line.take(fork_b_marker().len() as int);
        assert(head[5] == line[5]);
    }
    if has_prefix(line, config_marker()) {
        let head = line.take(config_marker().len() as int);
        assert(head[5] == line[5]);
    }
}

/// The configuration option that `line` names, if it names one.
pub open spec fn config_token(line: Seq<char>) -> Option<Seq<char>> {
    match fact_of(line) {
        Fact::Config(token) => Some(token),
        _ => None,
    }
}

/// What `gather` amounts to. It fails exactly when some line is malformed.
/// Otherwise the fork flag is set exactly when some line raises it, each
/// version is that of the last line that states one of its kind, and the
/// options are those of the lines that name one, in the order of the lines.
pub proof fn lemma_gather_describes(lines: Seq<Seq<char>>)
    ensures
        gather(lines) is Err <==> exists|i: int|
            0 <= i < lines.len() && fact_of(#[trigger] lines[i]) is Malformed,
        gather(lines) is Err ==> gather(lines) == Err::<Facts, Error>(Error::MalformedVersionToken),
        gather(lines) matches Ok(facts) ==> {
            &&& facts.fork_b <==> exists|i: int|
                0 <= i < lines.len() && fact_of(#[trigger] lines[i]) is ForkB
            &&& match facts.mainline {
                Some(version) => exists|i: int|
                    0 <= i < lines.len() && fact_of(#[trigger] lines[i]) == Fact::Mainline(version)
                        && forall|j: int| i < j < lines.len() ==> !(fact_of(
                        #[trigger] lines[j],
                    ) is Mainline),
                None => forall|i: int|
                    0 <= i < lines.len() ==> !(fact_of(#[trigger] lines[i]) is Mainline),
            }
            &&& match facts.fork_a {
                Some(version) => exists|i: int|
                    0 <= i < lines.len() && fact_of(#[trigger] lines[i]) == Fact::ForkA(version)
                        && forall|j: int| i < j < lines.len() ==> !(fact_of(
                        #[trigger] lines[j],
                    ) is ForkA),
                None => forall|i: int|
                    0 <= i < lines.len() ==> !(fact_of(#[trigger] lines[i]) is ForkA),
            }
            &&& facts.tokens == lines.filter_map(|line: Seq<char>| config_token(line))
        },
    decreases lines.len(),
{
    if lines.len() > 0 {
        let earlier = lines.drop_last();
        let n = lines.len() - 1;
        lemma_gather_describes(earlier);
        assert forall|i: int| 0 <= i < n implies #[trigger] earlier[i] == lines[i] by {}
        match gather(earlier) {
            Err(_) => {
                let i = choose|i: int|
                    0 <= i < earlier.len() && fact_of(#[trigger] earlier[i]) is Malformed;
                assert(fact_of(lines[i]) is Malformed);
            },
            Ok(before) => {
                if fact_of(lines[n]) is Malformed {
                } else {
                    let facts = gather(lines)->Ok_0;
                    if exists|i: int|
                        0 <= i < lines.len() && fact_of(#[trigger] lines[i]) is Malformed {
                        let i = choose|i: int|
                            0 <= i < lines.len() && fact_of(#[trigger] lines[i]) is Malformed;
                        assert(fact_of(earlier[i]) is Malformed);
                    }
                    // the fork flag
                    if facts.fork_b {
                        if before.fork_b {
                            let i = choose|i: int|
                                0 <= i < earlier.len() && fact_of(#[trigger] earlier[i]) is ForkB;
                            assert(fact_of(lines[i]) is ForkB);
                        } else {
                            assert(fact_of(lines[n]) is ForkB);
                        }
                    }
                    if exists|i: int|
                        0 <= i < lines.len() && fact_of(#[trigger] lines[i]) is ForkB {
                        let i = choose|i: int|
                            0 <= i < lines.len() && fact_of(#[trigger] lines[i]) is ForkB;
                        if i < n {
                            assert(fact_of(earlier[i]) is ForkB);
                        }
                    }
                    // the mainline version
                    match facts.mainline {
                        Some(version) => {
                            if fact_of(lines[n]) is Mainline {
                                assert(fact_of(lines[n]) == Fact::Mainline(version));
                            } else {
                                let i = choose|i: int|
                                    0 <= i < earlier.len() && fact_of(#[trigger] earlier[i])
                                        == Fact::Mainline(version) && forall|j: int|
                                        i < j < earlier.len() ==> !(fact_of(
                                            #[trigger] earlier[j],
                                        ) is Mainline);
                                assert(fact_of(lines[i]) == Fact::Mainline(version));
                                assert forall|j: int| i < j < lines.len() implies !(fact_of(
                                    #[trigger] lines[j],
                                ) is Mainline) by {
                                    if j < n {
                                        assert(earlier[j] == lines[j]);
                                    }
                                }
                            }
                        },
                        None => {
                            assert forall|i: int| 0 <= i < lines.len() implies !(fact_of(
                                #[trigger] lines[i],
                            ) is Mainline) by {
                                if i < n {
                                    assert(earlier[i] == lines[i]);
                                }
                            }
                        },
                    }
                    // the fork's version
                    match facts.fork_a {
                        Some(version) => {
                            if fact_of(lines[n]) is ForkA {
                                assert(fact_of(lines[n]) == Fact::ForkA(version));
                            } else {
                                let i = choose|i: int|
                                    0 <= i < earlier.len() && fact_of(#[trigger] earlier[i])
                                        == Fact::ForkA(version) && forall|j: int|
                                        i < j < earlier.len() ==> !(fact_of(
                                            #[trigger] earlier[j],
                                        ) is ForkA);
                                assert(fact_of(lines[i]) == Fact::ForkA(version));
                                assert forall|j: int| i < j < lines.len() implies !(fact_of(
                                    #[trigger] lines[j],
                                ) is ForkA) by {
                                    if j < n {
                                        assert(earlier[j] == lines[j]);
                                    }
                                }
                            }
                        },
                        None => {
                            assert forall|i: int| 0 <= i < lines.len() implies !(fact_of(
                                #[trigger] lines[i],
                            ) is ForkA) by {
                                if i < n {
                                    assert(earlier[i] == lines[i]);
                                }
                            }
                        },
                    }
                    // the options
                    assert(facts.tokens =~= lines.filter_map(
                        |line: Seq<char>| config_token(line),
                    ));
                }
            },
        }
    }
}

/// The BoringSSL-like fork overrides everything: a text in which it shows
/// itself, and in which no version marker is malformed, is classified as
/// that fork, whatever versions the text states.
pub proof fn lemma_fork_b_is_definitive(text: Seq<char>)
    requires
        exists|i: int| 0 <= i < lines(text).len() && fact_of(#[trigger] lines(text)[i]) is ForkB,
        forall|i: int| 0 <= i < lines(text).len() ==> !(fact_of(#[trigger] lines(text)[i]) is Malformed),
    ensures
        classification(text) is Ok,
        classification(text)->Ok_0.variant == Variant::ForkB,
        classification(text)->Ok_0.encoded_version is None,
{
    lemma_gather_describes(lines(text));
}

/// A text without any version and without the mark of the BoringSSL-like
/// fork is the text of no known library.
pub proof fn lemma_nothing_recognised(text: Seq<char>)
    requires
        forall|i: int|
            0 <= i < lines(text).len() ==> fact_of(#[trigger] lines(text)[i]) is Nothing || fact_of(
                lines(text)[i],
            ) is Config,
    ensures
        classification(text) == Err::<Classification, Error>(Error::NoVersionFound),
{
    lemma_gather_describes(lines(text));
}

/// The empty text is the text of no known library.
pub proof fn lemma_empty_text()
    ensures
        classification(Seq::<char>::empty()) == Err::<Classification, Error>(Error::NoVersionFound),
{
    reveal_strlit("RUST_VERSION_OPENSSL_");
    reveal_strlit("RUST_VERSION_NEW_OPENSSL_");
    reveal_strlit("RUST_VERSION_LIBRESSL_");
    reveal_strlit("RUST_OPENSSL_IS_BORINGSSL");
    reveal_strlit("RUST_CONF_");
    let text = Seq::<char>::empty();
    assert(text.subrange(0, 0) =~= text);
    assert(lines(text) == seq![text.subrange(0, 0)]);
    assert(lines(text)[0] == text);
    assert(trim(text) == text);
    assert(fact_of(text) is Nothing);
    lemma_nothing_recognised(text);
}

} // verus!
