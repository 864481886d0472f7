use play::assoc::Assoc;
use play::desk::{
    clear_finished, dest_in_use, download_config, enqueue_job, headers_for, host_rows, list_jobs, map_403, quality_list,
    variants_dto, Job, ResolveResponse,
};
use play::error::Error;
use play::prefs::Prefs;
use play::urls::UA_DEFAULT;
use play::variants::Variant;

fn v(bandwidth: u64, height: u32, url: &str) -> Variant {
    Variant {
        bandwidth,
        height,
        url: url.into(),
    }
}

#[test]
fn quality_list_is_best_first_with_labels() {
    let d = variants_dto(&[v(800_000, 0, "a"), v(5_000_000, 720, "b"), v(0, 0, "c")]);
    let rows: Vec<(String, String, u32, u64)> = d
        .into_iter()
        .map(|x| (x.label, x.quality, x.height, x.bandwidth))
        .collect();
    assert_eq!(
        rows,
        vec![
            ("720p".to_string(), "720p".to_string(), 720, 5_000_000),
            ("800000bps".to_string(), "800000bps".to_string(), 0, 800_000),
            ("unknown".to_string(), "unknown".to_string(), 0, 0),
        ]
    );
}

#[test]
fn a_referer_403_asks_for_the_embed_page() {
    let e = Error::Http {
        code: 403,
        url: "https://cdn.example/a/master.m3u8".into(),
        hint: " (try --referer 'https://embed.example/')".into(),
        body: Vec::new(),
    };
    match map_403("https://www.cdn.example/a/master.m3u8", e) {
        Ok(ResolveResponse::NeedReferer { url, hint, host }) => {
            assert_eq!(url, "https://cdn.example/a/master.m3u8");
            assert!(hint.contains("--referer"));
            assert_eq!(host, "cdn.example");
        }
        _ => panic!("expected a Referer request"),
    }
    let plain = Error::Http {
        code: 403,
        url: "https://cdn.example/x".into(),
        hint: String::new(),
        body: Vec::new(),
    };
    assert_eq!(
        map_403("https://cdn.example/x", plain).err().unwrap(),
        "play: HTTP 403 fetching https://cdn.example/x"
    );
    let other = Error::Message("play: boom".into());
    assert_eq!(map_403("https://cdn.example/x", other).err().unwrap(), "play: boom");
}

#[test]
fn host_rows_list_stored_settings() {
    let mut prefs: Prefs = Assoc::new();
    let mut z: Assoc<String> = Assoc::new();
    z.insert("referer".into(), "https://z.example/".into());
    prefs.insert("zz.example".into(), z);
    let mut a: Assoc<String> = Assoc::new();
    a.insert("referer".into(), "https://embed.example/".into());
    a.insert("origin".into(), "https://embed.example".into());
    prefs.insert("cdn.example".into(), a);
    let mut b: Assoc<String> = Assoc::new();
    b.insert("user_agent".into(), "UA".into());
    prefs.insert("other.example".into(), b);
    let rows = host_rows(&prefs);
    assert_eq!(rows.len(), 3);
    assert_eq!(rows[2].host, "zz.example");
    assert_eq!(rows[2].referer, "https://z.example/");
    assert_eq!(rows[0].host, "cdn.example");
    assert_eq!(rows[0].referer, "https://embed.example/");
    assert_eq!(rows[0].origin, "https://embed.example");
    assert_eq!(rows[1].host, "other.example");
    assert_eq!(rows[1].referer, "");
    assert_eq!(rows[1].origin, "");
}

#[test]
fn download_config_is_clamped() {
    let c = download_config(0);
    assert_eq!((c.workers, c.min_workers, c.max_workers), (1, 1, 16));
    assert_eq!(download_config(6).workers, 6);
    assert_eq!(download_config(99).workers, 16);
}

#[test]
fn jobs_are_queued_retried_and_refused() {
    let mut jobs: Vec<Job> = Vec::new();
    let d = enqueue_job(&mut jobs, 1, "https://cdn.example/a.m3u8", "a.mp4", None, None).unwrap();
    assert_eq!(d.id, 1);
    assert_eq!(d.host, "cdn.example");
    assert_eq!(d.quality, "best");
    assert_eq!(d.status, "queued");
    assert_eq!((d.done, d.total, d.bytes), (0, 1, 0));
    assert!(dest_in_use(&jobs, "a.mp4", None));
    assert!(!dest_in_use(&jobs, "a.mp4", Some(1)));
    let e = enqueue_job(&mut jobs, 2, "https://cdn.example/b.m3u8", "a.mp4", Some("720p"), None);
    assert_eq!(e.err().unwrap(), "play: already downloading a.mp4");
    assert_eq!(jobs.len(), 1);
    let e = enqueue_job(&mut jobs, 2, "https://cdn.example/a.m3u8", "b.mp4", None, Some(1));
    assert_eq!(e.err().unwrap(), "play: job is still running");
    let e = enqueue_job(&mut jobs, 2, "https://cdn.example/a.m3u8", "b.mp4", None, Some(7));
    assert_eq!(e.err().unwrap(), "play: no such job");
    jobs[0].status = "failed".into();
    jobs[0].error = Some("play: HTTP 403".into());
    jobs[0].done = 5;
    assert!(!jobs[0].is_active());
    let d = enqueue_job(&mut jobs, 2, "https://cdn.example/a.m3u8", "a.mp4", Some("720p"), Some(1)).unwrap();
    assert_eq!(d.id, 1);
    assert_eq!(d.quality, "720p");
    assert_eq!(jobs.len(), 1);
    assert_eq!(jobs[0].status, "queued");
    assert_eq!(jobs[0].error, None);
    assert_eq!(jobs[0].done, 0);
    assert!(jobs[0].is_active());
    let d = enqueue_job(&mut jobs, 2, "https://cdn.example/c.m3u8", "c.mp4", None, None).unwrap();
    assert_eq!(d.id, 2);
    assert_eq!(jobs.len(), 2);
    assert_eq!(jobs[1].dto().dest, "c.mp4");
}

fn job(id: u64, dest: &str, status: &str) -> Job {
    Job {
        id,
        url: format!("https://cdn.example/{id}.m3u8"),
        dest: dest.into(),
        quality: "best".into(),
        status: status.into(),
        done: 3,
        total: 9,
        bytes: 100,
        error: Some("old".into()),
        hint: Some("old".into()),
    }
}

#[test]
fn job_lifecycle_start_progress_finish() {
    let mut j = job(1, "a.mp4", "queued");
    assert!(j.start(false));
    assert_eq!(j.status, "running");
    assert_eq!((j.done, j.bytes, j.error.clone(), j.hint.clone()), (0, 0, None, None));
    assert!(!j.progress(1, 4, 10, false, false));
    assert_eq!((j.done, j.total, j.bytes), (1, 4, 10));
    assert!(j.progress(2, 4, 20, false, true));
    assert!(j.progress(4, 4, 40, false, false));
    assert_eq!(j.status, "remuxing");
    j.finish(Ok("a.mp4".into()), false);
    assert_eq!(j.status, "done");
    assert_eq!((j.done, j.total), (4, 4));
    let mut z = job(2, "z.mp4", "running");
    z.done = 0;
    z.total = 0;
    assert!(!z.progress(0, 0, 0, false, false));
    assert_eq!(z.total, 1);
    z.finish(Ok("z.ts".into()), false);
    assert_eq!((z.dest.as_str(), z.done, z.total), ("z.ts", 1, 1));
}

#[test]
fn job_errors_and_cancellation() {
    let mut j = job(1, "a.mp4", "running");
    j.finish(
        Err(Error::Http {
            code: 403,
            url: "https://cdn.example/m.m3u8".into(),
            hint: " (try --referer)".into(),
            body: Vec::new(),
        }),
        false,
    );
    assert_eq!(j.status, "needReferer");
    assert_eq!(j.hint.as_deref(), Some(" (try --referer)"));
    assert_eq!(
        j.error.as_deref(),
        Some("play: HTTP 403 fetching https://cdn.example/m.m3u8 (try --referer)")
    );
    let mut e = job(2, "b.mp4", "running");
    e.finish(Err(Error::Message("play: boom".into())), false);
    assert_eq!((e.status.as_str(), e.error.as_deref(), e.hint.clone()), ("error", Some("play: boom"), None));
    let mut c = job(3, "c.mp4", "running");
    c.finish(Err(Error::Message("play: download cancelled".into())), false);
    assert_eq!((c.status.as_str(), c.error.clone()), ("cancelled", None));
    let mut r = job(4, "d.mp4", "running");
    assert!(r.request_cancel());
    assert_eq!(r.status, "cancelling");
    assert!(!r.progress(5, 9, 1, false, true));
    assert_eq!((r.done, r.status.as_str()), (3, "cancelling"));
    assert!(!r.start(false));
    assert_eq!(r.status, "cancelled");
    assert!(!r.request_cancel());
    let mut q = job(5, "e.mp4", "queued");
    assert!(!q.start(true));
    assert_eq!(q.status, "cancelled");
}

#[test]
fn job_lists_and_clearing() {
    let mut jobs = vec![job(1, "a", "done"), job(2, "b", "running"), job(3, "c", "error"), job(4, "d", "queued")];
    let listed: Vec<u64> = list_jobs(&jobs).iter().map(|d| d.id).collect();
    assert_eq!(listed, vec![4, 3, 2, 1]);
    clear_finished(&mut jobs);
    let left: Vec<u64> = jobs.iter().map(|j| j.id).collect();
    assert_eq!(left, vec![2, 4]);
}

#[test]
fn interface_headers_normalize_and_carry_the_cookie_host() {
    let prefs: Prefs = Assoc::new();
    let h = headers_for(
        "https://cdn.example/a.m3u8",
        &prefs,
        Some(" embed.example/p "),
        Some("  "),
        None,
        Some(" c=1 "),
        Some(" CDN.Example "),
    )
    .unwrap();
    assert_eq!(h.get("Referer").unwrap(), "https://embed.example/p");
    assert_eq!(h.get("Origin").unwrap(), "https://embed.example");
    assert_eq!(h.get("User-Agent").unwrap(), UA_DEFAULT);
    assert_eq!(h.get("Accept").unwrap(), "*/*");
    assert_eq!(h.get("Cookie").unwrap(), "c=1");
    assert_eq!(h.get("X-Play-Cookie-Host").unwrap(), "cdn.example");
    let h = headers_for("https://cdn.example/a.m3u8", &prefs, None, None, Some("UA"), None, Some("x")).unwrap();
    assert_eq!(h.get("Referer").unwrap(), "https://cdn.example/");
    assert_eq!(h.get("Origin").unwrap(), "https://cdn.example");
    assert_eq!(h.get("User-Agent").unwrap(), "UA");
    assert!(h.get("Cookie").is_none());
    assert!(h.get("X-Play-Cookie-Host").is_none());
    assert!(headers_for("not a url", &prefs, None, None, None, None, None).is_err());
}

#[test]
fn host_rows_follow_string_order() {
    let keys = ["b.example", "a.example.net", "a.example", "Z.example", "\u{e9}t\u{e9}.example", "a"];
    let mut prefs: Prefs = Assoc::new();
    for k in keys {
        prefs.insert(k.to_string(), Assoc::new());
    }
    let rows: Vec<String> = host_rows(&prefs).into_iter().map(|r| r.host).collect();
    let sorted: Vec<String> = keys
        .iter()
        .map(|k| (k.to_string(), ()))
        .collect::<std::collections::BTreeMap<String, ()>>()
        .into_keys()
        .collect();
    assert_eq!(rows, sorted);
}

#[test]
fn quality_list_of_master_and_media_playlists() {
    let master = "#EXTM3U\n#EXT-X-STREAM-INF:BANDWIDTH=800000,RESOLUTION=640x360\nlow.m3u8\n#EXT-X-STREAM-INF:BANDWIDTH=5000000,RESOLUTION=1280x720\nhi.m3u8\n";
    let q: Vec<(String, u32, u64)> = quality_list(master, "https://cdn.example/m.m3u8")
        .into_iter()
        .map(|x| (x.label, x.height, x.bandwidth))
        .collect();
    assert_eq!(q, vec![("720p".to_string(), 720, 5_000_000), ("360p".to_string(), 360, 800_000)]);
    let media = quality_list("#EXTM3U\n#EXTINF:4,\na.ts\n", "https://cdn.example/a.m3u8");
    assert_eq!(media.len(), 1);
    assert_eq!((media[0].label.as_str(), media[0].quality.as_str(), media[0].height, media[0].bandwidth), ("best", "best", 0, 0));
}
