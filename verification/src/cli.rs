//! The `play` command line: the download flag with its optional file name,
//! the parsed arguments, and what a pasted "Copy as cURL" command fills in.
use vstd::prelude::*;
use crate::curl::{parse_curl, parse_curl_spec, CurlView, ParsedCurl};
use crate::error::Error;
use crate::fetch::{hint_403, referer_needed_for};
use crate::text::{chars_of, eq_str, has_infix, has_prefix, push_str, single, starts_with, string_of};
use crate::urls::{is_url, url_like};

verus! {

/// `-o`, `--output` or `--download`.
pub open spec fn download_flag(a: Seq<char>) -> bool {
    a == "-o"@ || a == "--output"@ || a == "--download"@
}

/// The arguments from `i` on with the download flags taken out: a flag
/// followed by a word that is neither an option nor a URL takes that word
/// as the file name (a later one wins).
pub open spec fn peel_from(
    a: Seq<Seq<char>>,
    i: int,
    out: Seq<Seq<char>>,
    download: bool,
    file: Option<Seq<char>>,
) -> (Seq<Seq<char>>, bool, Option<Seq<char>>)
    decreases a.len() - i,
{
    if i < 0 || i >= a.len() {
        (out, download, file)
    } else if download_flag(a[i]) {
        if i + 1 < a.len() && !has_prefix(a[i + 1], seq!['-']) && !url_like(a[i + 1]) {
            peel_from(a, i + 2, out, true, Some(a[i + 1]))
        } else {
            peel_from(a, i + 1, out, true, file)
        }
    } else {
        peel_from(a, i + 1, out.push(a[i]), download, file)
    }
}

proof fn lemma_peel_from(
    a: Seq<Seq<char>>,
    i: int,
    out: Seq<Seq<char>>,
    download: bool,
    file: Option<Seq<char>>,
)
    requires
        0 <= i <= a.len(),
        forall|k: int| 0 <= k < out.len() ==> !download_flag(#[trigger] out[k]),
    ensures
        ({
            let (o, d, _) = peel_from(a, i, out, download, file);
            &&& forall|k: int| 0 <= k < o.len() ==> !download_flag(#[trigger] o[k])
            &&& d == (download || exists|k: int| i <= k < a.len() && download_flag(#[trigger] a[k]))
        }),
    decreases a.len() - i,
{
    if i < a.len() {
        if download_flag(a[i]) {
            if i + 1 < a.len() && !has_prefix(a[i + 1], seq!['-']) && !url_like(a[i + 1]) {
                lemma_peel_from(a, i + 2, out, true, Some(a[i + 1]));
            } else {
                lemma_peel_from(a, i + 1, out, true, file);
            }
        } else {
            lemma_peel_from(a, i + 1, out.push(a[i]), download, file);
            let (o, d, _) = peel_from(a, i + 1, out.push(a[i]), download, file);
            if d && !download {
                let k = choose|k: int| i + 1 <= k < a.len() && download_flag(#[trigger] a[k]);
                assert(i <= k < a.len() && download_flag(a[k]));
            }
            if !d && exists|k: int| i <= k < a.len() && download_flag(#[trigger] a[k]) {
                let k = choose|k: int| i <= k < a.len() && download_flag(#[trigger] a[k]);
                assert(k != i);
                assert(i + 1 <= k < a.len() && download_flag(a[k]));
            }
        }
    }
}

fn is_download_flag(a: &str) -> (b: bool)
    ensures
        b == download_flag(a@),
{
    let c = chars_of(a);
    eq_str(c.as_slice(), "-o") || eq_str(c.as_slice(), "--output") || eq_str(c.as_slice(), "--download")
}

/// Takes the download flags out of the arguments: the rest, whether to
/// download, and the file name if one was given. No flag is left in the
/// rest, and the download is on exactly when some argument is a flag.
pub fn peel_download(argv: &[String]) -> (r: (Vec<String>, bool, Option<String>))
    ensures
        (crate::curl::string_views(r.0@), r.1, crate::weburl::opt_view(r.2)) == peel_from(
            crate::curl::string_views(argv@),
            0,
            seq![],
            false,
            None,
        ),
        forall|k: int| 0 <= k < r.0@.len() ==> !download_flag(#[trigger] r.0@[k]@),
        r.1 == exists|k: int| 0 <= k < argv@.len() && download_flag(#[trigger] argv@[k]@),
{
    let ghost av = crate::curl::string_views(argv@);
    let dash = single('-');
    let mut download = false;
    let mut file: Option<String> = None;
    let mut out: Vec<String> = Vec::new();
    let mut i: usize = 0;
    proof {
        lemma_peel_from(av, 0, seq![], false, None);
        assert(crate::curl::string_views(out@) =~= Seq::<Seq<char>>::empty());
    }
    while i < argv.len()
        invariant
            i <= argv@.len(),
            av == crate::curl::string_views(argv@),
            dash@ == seq!['-'],
            peel_from(av, i as int, crate::curl::string_views(out@), download, crate::weburl::opt_view(file))
                == peel_from(av, 0, seq![], false, None),
        decreases argv@.len() - i,
    {
        assert(av[i as int] == argv@[i as int]@);
        if is_download_flag(argv[i].as_str()) {
            download = true;
            if i + 1 < argv.len() {
                assert(av[i + 1] == argv@[i + 1]@);
                let nc = chars_of(argv[i + 1].as_str());
                if !starts_with(nc.as_slice(), dash.as_slice()) && !is_url(argv[i + 1].as_str()) {
                    file = Some(argv[i + 1].clone());
                    i += 2;
                    continue;
                }
            }
            i += 1;
            continue;
        }
        let ghost before = out@;
        out.push(argv[i].clone());
        proof {
            assert(crate::curl::string_views(out@) =~= crate::curl::string_views(before).push(av[i as int]));
        }
        i += 1;
    }
    proof {
        let (o, d, _) = peel_from(av, 0, seq![], false, None);
        assert(o == crate::curl::string_views(out@));
        assert forall|k: int| 0 <= k < out@.len() implies !download_flag(#[trigger] out@[k]@) by {
            assert(o[k] == out@[k]@);
        }
        if d {
            let k = choose|k: int| 0 <= k < av.len() && download_flag(#[trigger] av[k]);
            assert(av[k] == argv@[k]@);
        }
        if exists|k: int| 0 <= k < argv@.len() && download_flag(#[trigger] argv@[k]@) {
            let k = choose|k: int| 0 <= k < argv@.len() && download_flag(#[trigger] argv@[k]@);
            assert(download_flag(av[k]));
        }
    }
    (out, download, file)
}

/// The parsed command line.
pub struct Args {
    pub url: String,
    pub quality: Option<String>,
    pub referer: Option<String>,
    pub origin: Option<String>,
    pub user_agent: String,
    pub dry_run: bool,
    pub verbose: bool,
    pub download: bool,
    pub download_file: Option<String>,
}

/// A "Copy as cURL" text given as the URL fills in what the command line
/// left open: its URL replaces the text, its Referer and Origin apply when
/// none was given, its User-Agent always applies, and its Cookie is
/// returned. Other text leaves the arguments as they are.
pub fn apply_curl(args: Args) -> (r: (Args, Option<String>))
    ensures
        match parse_curl_spec(args.url@) {
            None => r.0.url@ == args.url@ && crate::weburl::opt_view(r.0.referer)
                == crate::weburl::opt_view(args.referer) && crate::weburl::opt_view(r.0.origin)
                == crate::weburl::opt_view(args.origin) && r.0.user_agent@ == args.user_agent@
                && r.1 is None,
            Some(p) => r.0.url@ == p.url && crate::weburl::opt_view(r.0.referer) == (match args.referer {
                Some(x) => Some(x@),
                None => p.referer,
            }) && crate::weburl::opt_view(r.0.origin) == (match args.origin {
                Some(x) => Some(x@),
                None => p.origin,
            }) && r.0.user_agent@ == (match p.user_agent {
                Some(u) => u,
                None => args.user_agent@,
            }) && crate::weburl::opt_view(r.1) == p.cookie,
        },
        crate::weburl::opt_view(r.0.quality) == crate::weburl::opt_view(args.quality),
        r.0.dry_run == args.dry_run,
        r.0.verbose == args.verbose,
        r.0.download == args.download,
        crate::weburl::opt_view(r.0.download_file) == crate::weburl::opt_view(args.download_file),
{
    let p = match parse_curl(args.url.as_str()) {
        Some(p) => p,
        None => return (args, None),
    };
    let referer = match args.referer {
        Some(x) => Some(x),
        None => p.referer,
    };
    let origin = match args.origin {
        Some(x) => Some(x),
        None => p.origin,
    };
    let user_agent = match p.user_agent {
        Some(u) => u,
        None => args.user_agent,
    };
    (
        Args {
            url: p.url,
            quality: args.quality,
            referer,
            origin,
            user_agent,
            dry_run: args.dry_run,
            verbose: args.verbose,
            download: args.download,
            download_file: args.download_file,
        },
        p.cookie,
    )
}

/// The URL must look like one; the error repeats it.
pub fn check_url(url: &str) -> (r: Result<(), Error>)
    ensures
        url_like(url@) ==> r is Ok,
        !url_like(url@) ==> (r matches Err(Error::Message(m)) && m@ == "play: not a URL: "@ + url@),
{
    if is_url(url) {
        return Ok(());
    }
    let mut m = chars_of("play: not a URL: ");
    push_str(&mut m, url);
    Err(Error::Message(string_of(m.as_slice())))
}

/// After a 403, the user is asked for a Referer only when none was given
/// on the command line, there is a terminal to ask on, and the hint asks
/// for one.
pub fn should_ask_referer(referer_set: bool, tty: bool, url: &str, body: &[u8], sent: Option<&str>) -> (b: bool)
    ensures
        b == (!referer_set && tty && has_infix(
            hint_403(
                url@,
                body@,
                match sent {
                    Some(s) => Some(s@),
                    None => None,
                },
            ),
            "--referer"@,
        )),
{
    if referer_set || !tty {
        return false;
    }
    referer_needed_for(url, body, sent)
}

} // verus!
