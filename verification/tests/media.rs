use asciinema::media::snapshot_plan;
use asciinema::{encode_mp4_args, ffmpeg_args, BuildPaths};

#[test]
fn mp4_arguments() {
    assert_eq!(
        encode_mp4_args("d/x.gif", "d/x.mp4"),
        vec![
            "-y", "-i", "d/x.gif", "-an", "-movflags", "faststart", "-pix_fmt", "yuv420p", "-vf",
            "scale=trunc(iw/2)*2:trunc(ih/2)*2", "-c:v", "libx264", "d/x.mp4"
        ]
    );
    assert_eq!(
        ffmpeg_args(vec!["-y".to_owned()]),
        vec!["-hide_banner", "-loglevel", "error", "-y"]
    );
}

#[test]
fn snapshot_files() {
    let paths = BuildPaths::new("examples/demo.sh", None).unwrap();
    let labels = vec!["greeting".to_owned(), "Build #1".to_owned(), "".to_owned()];
    let plan = snapshot_plan(&paths, &labels, "3");
    assert_eq!(plan.marker_gif, "examples/demo/.demo-snapshots.gif");
    assert_eq!(plan.temporary_pattern, "examples/demo/.demo-snapshot-%02d.png");
    assert_eq!(
        plan.temporary_pngs,
        vec![
            "examples/demo/.demo-snapshot-01.png",
            "examples/demo/.demo-snapshot-02.png",
            "examples/demo/.demo-snapshot-03.png"
        ]
    );
    assert_eq!(
        plan.destinations,
        vec![
            "examples/demo/snapshots/greeting.png",
            "examples/demo/snapshots/Build--1.png",
            "examples/demo/snapshots/marker-3.png"
        ]
    );
    assert_eq!(
        plan.ffmpeg_args,
        vec![
            "-y",
            "-i",
            "examples/demo/.demo-snapshots.gif",
            "-vf",
            "fps=1/3",
            "-frames:v",
            "3",
            "examples/demo/.demo-snapshot-%02d.png"
        ]
    );
}
