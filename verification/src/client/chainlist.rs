//! The public catalog of chains and of their endpoints.

use vstd::prelude::*;
use crate::services::evm_rpc::urls_view;
use crate::util::groups::{chain_ids_of, group_by_chain_id, pairs_view, urls_of_chain};
use crate::util::text::{
    chars_of,
    contains_chars,
    contains_text,
    find_line,
    first_line,
    lines_of,
    lines_view,
    split_lines,
    string_of,
    trim_bounds,
    trimmed,
};

verus! {

/// What the catalog knows of one chain.
#[derive(Default, Debug, Clone)]
pub struct ChainConfig {
    pub name: String,
    pub chain: String,
    pub icon: Option<String>,
    pub rpc: Vec<String>,
    pub features: Vec<Feature>,
    pub faucets: Vec<String>,
    pub native_currency: NativeCurrency,
    pub info_url: String,
    pub short_name: String,
    pub chain_id: i64,
    pub network_id: i64,
    pub slip44: Option<i64>,
    pub ens: Option<Ens>,
    pub explorers: Vec<Explorer>,
    pub title: Option<String>,
    pub status: Option<String>,
    pub red_flags: Vec<String>,
    pub parent: Option<Parent>,
}

#[derive(Default, Debug, Clone)]
pub struct Feature {
    pub name: String,
}

#[derive(Default, Debug, Clone)]
pub struct NativeCurrency {
    pub name: String,
    pub symbol: String,
    pub decimals: i64,
}

#[derive(Default, Debug, Clone)]
pub struct Ens {
    pub registry: String,
}

#[derive(Default, Debug, Clone)]
pub struct Explorer {
    pub name: String,
    pub url: String,
    pub standard: String,
    pub icon: Option<String>,
}

#[derive(Default, Debug, Clone)]
pub struct Parent {
    pub type_field: String,
    pub chain: String,
    pub bridges: Vec<Bridge>,
}

#[derive(Default, Debug, Clone)]
pub struct Bridge {
    pub url: String,
}

/// Reads the catalog.
#[derive(Clone, Copy)]
pub struct ChainlistClient;

impl ChainlistClient {
    pub fn new() -> Self {
        Self {  }
    }
}

/// The line with which the list of endpoints starts.
pub const TARGET_START_LINE: &'static str = "export const extraRpcs = {";

/// The line behind the list of endpoints.
pub const TARGET_STOP_LINE: &'static str =
    "const allExtraRpcs = mergeDeep(llamaNodesRpcs, extraRpcs);";

/// A line that opens the endpoints of a chain; its first group is the chain id.
pub const CHAIN_ID_PATTERN: &'static str = r"^(\d+): \{$";

/// A line that names an endpoint; its first group is the URL.
pub const URL_PATTERN: &'static str =
    r#""(https:\/\/(www\.)?[-a-zA-Z0-9@:%._\+~#=]{1,256}\.[a-zA-Z0-9()]{1,6}\b([-a-zA-Z0-9()@:%_\+.~#?&//=]*))""#;

/// Endpoints whose URL holds this are left out.
pub const KNOWN_BAD: &'static str = "polysplit";

/// Why the catalog of endpoints could not be read.
#[derive(Debug, Clone, Copy, PartialEq, Eq, Structural)]
pub enum CatalogError {
    /// No line starts the list of endpoints.
    MissingStartLine,
    /// No line ends the list of endpoints.
    MissingStopLine,
    /// The list ends before it starts.
    StopBeforeStart,
    /// A pattern was not accepted as a regular expression.
    BadPattern,
}

#[verifier::external_type_specification]
#[verifier::external_body]
pub struct ExRegexError(regex::Error);

/// What group `group` of the first match of the regular expression `pattern` in
/// `text` holds: `None` where `pattern` is no regular expression, `Some(None)`
/// where it does not match or the group took no part in the match.
pub uninterp spec fn regex_capture(pattern: Seq<char>, text: Seq<char>, group: int) -> Option<
    Option<Seq<char>>,
>;

/// A text that may be missing, as a character sequence.
pub open spec fn text_view(text: Option<String>) -> Option<Seq<char>> {
    match text {
        Some(text) => Some(text@),
        None => None,
    }
}

/// `regex::Regex::new`, `Regex::captures` and `Captures::get`: compiles `pattern`
/// and gives the text of group `group` of its first match in `text`, if there is
/// a match and the group took part in it. The error is that of the compilation.
#[verifier::external_body]
fn capture(pattern: &str, text: &str, group: usize) -> (captured: Result<
    Option<String>,
    regex::Error,
>)
    ensures
        match captured {
            Ok(found) => regex_capture(pattern@, text@, group as int) == Some(text_view(found)),
            Err(_) => regex_capture(pattern@, text@, group as int) is None,
        },
{
    let regex = regex::Regex::new(pattern)?;
    match regex.captures(text) {
        Some(found) => match found.get(group) {
            Some(part) => Ok(Some(part.as_str().to_owned())),
            None => Ok(None),
        },
        None => Ok(None),
    }
}

/// How far the list of endpoints has been read: the chain that the next endpoints
/// belong to, the endpoints read so far as pairs of chain id and URL, and whether
/// the patterns were accepted on every line.
pub struct CatalogScan {
    pub chain_id: Seq<char>,
    pub entries: Seq<(Seq<char>, Seq<char>)>,
    pub patterns_accepted: bool,
}

/// Reads one more line. A line that opens a chain sets the chain; a line that
/// names an endpoint adds it under the chain that was opened last, unless its URL
/// is known to be bad; any other line changes nothing.
pub open spec fn scan_line(scan: CatalogScan, line: Seq<char>) -> CatalogScan {
    let text = trimmed(line);
    match regex_capture(CHAIN_ID_PATTERN@, text, 1) {
        None => CatalogScan { patterns_accepted: false, ..scan },
        Some(Some(chain_id)) => CatalogScan { chain_id, ..scan },
        Some(None) => match regex_capture(URL_PATTERN@, text, 1) {
            None => CatalogScan { patterns_accepted: false, ..scan },
            Some(Some(url)) => if contains_text(url, KNOWN_BAD@) {
                scan
            } else {
                CatalogScan { entries: scan.entries.push((scan.chain_id, url)), ..scan }
            },
            Some(None) => scan,
        },
    }
}

/// Reads `lines` one after the other. Endpoints in front of the first chain
/// belong to the chain with the empty id.
pub open spec fn scan_lines(lines: Seq<Seq<char>>) -> CatalogScan
    decreases lines.len(),
{
    if lines.len() == 0 {
        CatalogScan { chain_id: Seq::empty(), entries: Seq::empty(), patterns_accepted: true }
    } else {
        scan_line(scan_lines(lines.drop_last()), lines.last())
    }
}

proof fn lemma_refused_pattern_stays(lines: Seq<Seq<char>>, prefix: int)
    requires
        0 <= prefix <= lines.len(),
        !scan_lines(lines.take(prefix)).patterns_accepted,
    ensures
        !scan_lines(lines).patterns_accepted,
    decreases lines.len() - prefix,
{
    if prefix == lines.len() {
        assert(lines.take(prefix) =~= lines);
    } else {
        assert(lines.take(prefix + 1).drop_last() =~= lines.take(prefix));
        lemma_refused_pattern_stays(lines, prefix + 1);
    }
}

/// Takes in what the two patterns captured on one line: `header` is the chain id
/// of a line that opens a chain, `url` the URL of a line that names an endpoint.
/// A header sets the chain. A URL is added under the chain opened last, unless it
/// holds the known-bad text. A line with neither changes nothing.
pub fn scan_captured(
    chain_id: &mut String,
    entries: &mut Vec<(String, String)>,
    header: Option<String>,
    url: Option<String>,
)
    ensures
        match header {
            Some(id) => final(chain_id)@ == id@ && pairs_view(final(entries)@) == pairs_view(
                old(entries)@,
            ),
            None => final(chain_id)@ == old(chain_id)@ && pairs_view(final(entries)@) == (if url
                is Some && !contains_text(url->0@, KNOWN_BAD@) {
                pairs_view(old(entries)@).push((old(chain_id)@, url->0@))
            } else {
                pairs_view(old(entries)@)
            }),
        },
{
    match header {
        Some(id) => {
            *chain_id = id;
        },
        None => match url {
            Some(url) => {
                let url_chars = chars_of(url.as_str());
                let known_bad = chars_of(KNOWN_BAD);
                if !contains_chars(&url_chars, &known_bad) {
                    let ghost before = pairs_view(entries@);
                    entries.push((chain_id.clone(), url));
                    assert(pairs_view(entries@) =~= before.push((chain_id@, url@)));
                }
            },
            None => {},
        },
    }
}

/// The lines of the catalog that list endpoints: from the start line up to the
/// stop line.
pub open spec fn endpoint_lines(content: Seq<char>) -> Seq<Seq<char>> {
    lines_of(content).subrange(
        first_line(lines_of(content), TARGET_START_LINE@)->0,
        first_line(lines_of(content), TARGET_STOP_LINE@)->0,
    )
}

impl ChainlistClient {
    /// Reads the endpoints of every chain out of the text of the catalog. The
    /// endpoints are listed between a start line and a stop line; in between, a
    /// line either opens a chain or names an endpoint of the chain opened last.
    /// Endpoints whose URL is known to be bad are left out. The result holds
    /// one group per chain, in the order in which the chains first have an
    /// endpoint, each with the URLs of its endpoints in their order.
    #[verifier::loop_isolation(false)]
    pub fn fetch_rpcs(&self, content: &str) -> (rpcs: Result<Vec<(String, Vec<String>)>, CatalogError>)
        ensures
            match rpcs {
                Ok(groups) => {
                    let entries = scan_lines(endpoint_lines(content@)).entries;
                    &&& first_line(lines_of(content@), TARGET_START_LINE@) is Some
                    &&& first_line(lines_of(content@), TARGET_STOP_LINE@) is Some
                    &&& first_line(lines_of(content@), TARGET_START_LINE@)->0 <= first_line(
                        lines_of(content@),
                        TARGET_STOP_LINE@,
                    )->0
                    &&& scan_lines(endpoint_lines(content@)).patterns_accepted
                    &&& groups.len() == chain_ids_of(entries).len()
                    &&& forall|g: int|
                        0 <= g < groups.len() ==> (#[trigger] groups[g]).0@ == chain_ids_of(
                            entries,
                        )[g] && urls_view(groups[g].1@) == urls_of_chain(entries, groups[g].0@)
                },
                Err(CatalogError::MissingStartLine) => first_line(
                    lines_of(content@),
                    TARGET_START_LINE@,
                ) is None,
                Err(CatalogError::MissingStopLine) => first_line(
                    lines_of(content@),
                    TARGET_START_LINE@,
                ) is Some && first_line(lines_of(content@), TARGET_STOP_LINE@) is None,
                Err(CatalogError::StopBeforeStart) => first_line(
                    lines_of(content@),
                    TARGET_START_LINE@,
                ) is Some && first_line(lines_of(content@), TARGET_STOP_LINE@) is Some
                    && first_line(lines_of(content@), TARGET_START_LINE@)->0 > first_line(
                    lines_of(content@),
                    TARGET_STOP_LINE@,
                )->0,
                Err(CatalogError::BadPattern) => first_line(
                    lines_of(content@),
                    TARGET_START_LINE@,
                ) is Some && first_line(lines_of(content@), TARGET_STOP_LINE@) is Some
                    && first_line(lines_of(content@), TARGET_START_LINE@)->0 <= first_line(
                    lines_of(content@),
                    TARGET_STOP_LINE@,
                )->0 && !scan_lines(endpoint_lines(content@)).patterns_accepted,
            },
    {
        let chars = chars_of(content);
        let lines = split_lines(&chars);
        let start_line = match find_line(&lines, &chars_of(TARGET_START_LINE)) {
            Some(at) => at,
            None => {
                return Err(CatalogError::MissingStartLine);
            },
        };
        let stop_line = match find_line(&lines, &chars_of(TARGET_STOP_LINE)) {
            Some(at) => at,
            None => {
                return Err(CatalogError::MissingStopLine);
            },
        };
        if start_line > stop_line {
            return Err(CatalogError::StopBeforeStart);
        }
        let ghost target = endpoint_lines(content@);
        assert(target == lines_view(lines@).subrange(start_line as int, stop_line as int));
        let mut chain_id = String::new();
        let mut entries: Vec<(String, String)> = Vec::new();
        let mut at: usize = start_line;
        assert(target.take(0) =~= Seq::empty());
        assert(pairs_view(entries@) =~= Seq::empty());
        while at < stop_line
            invariant
                start_line <= at <= stop_line < lines.len(),
                target == lines_view(lines@).subrange(start_line as int, stop_line as int),
                scan_lines(target.take(at - start_line)) == (CatalogScan {
                    chain_id: chain_id@,
                    entries: pairs_view(entries@),
                    patterns_accepted: true,
                }),
            decreases stop_line - at,
        {
            let ghost read = at - start_line;
            proof {
                assert(target.take(read + 1).drop_last() =~= target.take(read));
                assert(target.take(read + 1).last() == lines[at as int]@);
            }
            let bounds = trim_bounds(&lines[at]);
            let text = string_of(&lines[at], bounds.0, bounds.1);
            let header = match capture(CHAIN_ID_PATTERN, text.as_str(), 1) {
                Ok(header) => header,
                Err(_) => {
                    proof {
                        lemma_refused_pattern_stays(target, read + 1);
                    }
                    return Err(CatalogError::BadPattern);
                },
            };
            let url = match &header {
                Some(_) => None,
                None => match capture(URL_PATTERN, text.as_str(), 1) {
                    Ok(url) => url,
                    Err(_) => {
                        proof {
                            lemma_refused_pattern_stays(target, read + 1);
                        }
                        return Err(CatalogError::BadPattern);
                    },
                },
            };
            scan_captured(&mut chain_id, &mut entries, header, url);
            at = at + 1;
        }
        assert(target.take(stop_line - start_line) =~= target);
        Ok(group_by_chain_id(&entries))
    }
}

} // verus!
