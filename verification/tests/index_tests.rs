use sitegen::article::{to_article, summary_source, locale_date};
use sitegen::content::{ContentStatus, Timestamp};
use sitegen::feed::{feed_entries, join_url_exec, rfc2822};
use sitegen::index::{layout_index, tag_index, tag_cloud, tag_weight, reversed};
use sitegen::loader::parse_content;
use sitegen::render::{output_dir, template_name, tag_index_path};

fn post(title: &str, date: &str, tags: &str, extra: &str) -> sitegen::content::ContentItem {
    let text = format!(
        "title: {}\ndate: {}\nlayout: post\ntags: {}\n{}\nbody of {}",
        title, date, tags, extra, title,
    );
    parse_content(&text).unwrap()
}

#[test]
fn draft_written_under_draft_subtree_and_unlisted() {
    let items = vec![
        post("Visible", "2024-01-01", "a", ""),
        post("Secret", "2024-02-01", "a", "status: draft\n"),
    ];
    assert_eq!(output_dir(&items[0]), "blog/2024/01/01/visible");
    assert_eq!(output_dir(&items[1]), "draft/blog/2024/02/01/secret");
    let by_layout = layout_index(&items);
    assert_eq!(by_layout.len(), 1);
    assert_eq!(by_layout[0].0, "post");
    assert_eq!(by_layout[0].1, vec![0]);
    let by_tag = tag_index(&items);
    assert_eq!(by_tag.len(), 1);
    assert_eq!(by_tag[0].1, vec![0]);
}

#[test]
fn two_posts_tag_indices() {
    let items = vec![
        post("One", "2024-01-01", "a,b", ""),
        post("Two", "2024-02-01", "b", ""),
    ];
    let by_tag = tag_index(&items);
    assert_eq!(by_tag.len(), 2);
    assert_eq!(by_tag[0].0, "a");
    assert_eq!(by_tag[0].1, vec![0]);
    assert_eq!(by_tag[1].0, "b");
    // ascending by output path (dated), so descending once reversed.
    assert_eq!(by_tag[1].1, vec![0, 1]);
    let recent_first = reversed(&by_tag[1].1);
    assert_eq!(recent_first, vec![1, 0]);
    assert!(items[recent_first[0]].timestamp.year == 2024);
    assert!(items[recent_first[0]].timestamp.month > items[recent_first[1]].timestamp.month);
    assert_eq!(tag_index_path("a"), "tags/a/index.html");
    assert_eq!(tag_index_path("b"), "tags/b/index.html");
}

#[test]
fn layout_groups_sorted_by_path_then_time() {
    let items = vec![
        post("Zeta", "2024-01-03", "", ""),
        post("Alpha", "2024-01-04", "", ""),
    ];
    let by_layout = layout_index(&items);
    assert_eq!(by_layout[0].1, vec![0, 1]);
}

#[test]
fn tag_weight_values_and_bounds() {
    // Most frequent tag used eight times.
    assert_eq!(tag_weight(1, 8), 5);
    assert_eq!(tag_weight(2, 8), 3);
    assert_eq!(tag_weight(8, 8), 1);
    assert_eq!(tag_weight(1, 1), 5);
    assert_eq!(tag_weight(2, 2), 2);
    for m in 1..40usize {
        let mut last = 6usize;
        for c in 1..=m {
            let w = tag_weight(c, m);
            assert!((1..=5).contains(&w));
            assert!(w <= last);
            last = w;
        }
    }
}

#[test]
fn tag_cloud_pairs_tags_with_weights() {
    let items = vec![
        post("One", "2024-01-01", "a,b", ""),
        post("Two", "2024-02-01", "b", ""),
    ];
    let by_tag = tag_index(&items);
    let cloud = tag_cloud(&by_tag);
    assert_eq!(cloud.len(), 2);
    assert_eq!(cloud[0].0, "a");
    assert_eq!(cloud[1].0, "b");
    assert_eq!(cloud[0].1, 5);
    assert_eq!(cloud[1].1, 2);
    assert!(cloud[0].1 >= cloud[1].1);
}

#[test]
fn article_projection() {
    let item = post("My Post", "2024-03-05 10:30", "x", "");
    let a = to_article(&item).unwrap();
    assert_eq!(a.title, "My Post");
    assert_eq!(a.url, "blog/2024/03/05/my-post");
    assert_eq!(a.content, "<p>body of My Post</p>\n");
    assert_eq!(a.summary, "<p>body of My Post...</p>\n");
    assert_eq!(a.tags, vec!["x".to_string()]);
    assert_eq!(a.locale_date, "Tue 05 March 2024");
}

#[test]
fn summary_cuts_at_hundred_pieces() {
    let long = "word ".repeat(150);
    let cut = summary_source(&long);
    assert_eq!(cut, format!("{}...", "word ".repeat(100)));
    let short = summary_source("just a few words");
    assert_eq!(short, "just a few words...");
}

#[test]
fn locale_date_formats() {
    let ts = Timestamp { year: 2024, month: 1, day: 1, hour: 0, minute: 0 };
    assert_eq!(locale_date(&ts), "Mon 01 January 2024");
}

#[test]
fn rfc2822_formats() {
    let ts = Timestamp { year: 2024, month: 3, day: 5, hour: 10, minute: 30 };
    assert_eq!(rfc2822(&ts), "Tue, 5 Mar 2024 10:30:00 +0000");
    let chrono_says = chrono::NaiveDate::from_ymd_opt(2024, 3, 5)
        .unwrap()
        .and_hms_opt(10, 30, 0)
        .unwrap()
        .and_utc()
        .to_rfc2822();
    assert_eq!(rfc2822(&ts), chrono_says);
}

#[test]
fn feed_entries_capped_with_absolute_urls() {
    let items = vec![
        post("One", "2024-01-01", "", ""),
        post("Two", "2024-02-01", "", ""),
        post("Three", "2024-03-01", "", ""),
    ];
    let mut articles = Vec::new();
    for it in &items {
        articles.push(to_article(it).unwrap());
    }
    let entries = feed_entries(&articles, "https://example.com", 2);
    assert_eq!(entries.len(), 2);
    assert_eq!(entries[0].url, "https://example.com/blog/2024/01/01/one");
    assert_eq!(entries[0].pub_date, "Mon, 1 Jan 2024 00:00:00 +0000");
    assert_eq!(entries[0].title, "One");
    assert_eq!(join_url_exec("https://example.com/", "a"), "https://example.com/a");
    assert_eq!(join_url_exec("base", "/abs"), "/abs");
}

#[test]
fn feeds_serialize() {
    let items = vec![post("One", "2024-01-01", "", "")];
    let articles = vec![to_article(&items[0]).unwrap()];
    let entries = feed_entries(&articles, "https://example.com", 10);
    let build_date = "Wed, 1 May 2030 12:34:56 +0000";
    let rss_xml = sitegen::feed::rss_feed(
        &entries,
        "My Site",
        "https://example.com",
        "Me",
        build_date,
    );
    assert!(rss_xml.contains("<title>My Site</title>"));
    assert!(rss_xml.contains("<link>https://example.com</link>"));
    assert!(rss_xml.contains("<guid>https://example.com/blog/2024/01/01/one</guid>"));
    assert!(rss_xml.contains("Mon, 1 Jan 2024 00:00:00 +0000"));
    assert!(rss_xml.contains("<lastBuildDate>Wed, 1 May 2030 12:34:56 +0000</lastBuildDate>"));
    assert!(rss_xml.contains("<author>Me</author>"));
    for e in &entries {
        assert!(sitegen::content::real_date(&e.timestamp));
    }
    let now = Timestamp { year: 2030, month: 5, day: 1, hour: 12, minute: 34 };
    let atom_xml = sitegen::feed::atom_feed(
        &entries,
        "My Site",
        "https://example.com",
        "Me",
        &now,
        56,
    );
    assert!(atom_xml.contains("<title>One</title>"));
    assert!(atom_xml.contains("2024-01-01T00:00:00+00:00"));
    assert!(atom_xml.contains("2030-05-01T12:34:56+00:00"));
    assert!(atom_xml.contains("<name>Me</name>"));
    assert!(atom_xml.contains("https://example.com/blog/2024/01/01/one"));
}

#[test]
fn template_selection_defaults_to_page() {
    let with_layout = post("A", "2024-01-01", "", "");
    assert_eq!(template_name(&with_layout.metadata), "post.html");
    let bare = parse_content("title: B\ndate: 2024-01-01\n\nbody").unwrap();
    assert_eq!(template_name(&bare.metadata), "page.html");
    assert!(matches!(bare.status, ContentStatus::Public));
}
