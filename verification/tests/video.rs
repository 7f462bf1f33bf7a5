use xpress_core::video::describes_hdr;

#[test]
fn detects_hdr_transfers() {
    let hlg = "  Stream #0:0[0x1]: Video: hevc (Main 10) (hvc1 / 0x31637668), \
               yuv420p10le(tv, bt2020nc/bt2020/arib-std-b67, progressive), 640x360";
    let pq = "  Stream #0:0: Video: hevc (Main 10), yuv420p10le(tv, bt2020nc/bt2020/smpte2084)";
    let sdr = "  Stream #0:0: Video: h264 (High), yuv420p(tv, bt709, progressive)";
    let audio_only = "  Stream #0:1: Audio: aac, 48000 Hz, stereo (arib-std-b67 in a tag)";
    assert!(describes_hdr(hlg));
    assert!(describes_hdr(pq));
    assert!(!describes_hdr(sdr));
    assert!(!describes_hdr(audio_only));
}
