use infinishield::video::{
    first_audio_stream, is_sampled_frame, plane_to_rgb, rgb_into_plane, route_packet, PacketRoute,
};

#[test]
fn video_packet_routing() {
    assert!(matches!(route_packet(0, 0, Some((1, 1))), PacketRoute::Video));
    assert!(matches!(
        route_packet(2, 0, Some((2, 1))),
        PacketRoute::Audio { out_stream: 1 }
    ));
    assert!(matches!(route_packet(3, 0, Some((2, 1))), PacketRoute::Drop));
    assert!(matches!(route_packet(1, 0, None), PacketRoute::Drop));
}

#[test]
fn video_first_audio_stream() {
    assert_eq!(first_audio_stream(&[false, true, true]), Some(1));
    assert_eq!(first_audio_stream(&[false, false]), None);
    assert_eq!(first_audio_stream(&[]), None);
}

#[test]
fn video_one_frame_per_interval() {
    let sampled: Vec<usize> = (0..10).filter(|&i| is_sampled_frame(i, 4)).collect();
    assert_eq!(sampled, vec![0, 4, 8]);
    assert!((0..5).all(|i| is_sampled_frame(i, 1)));
}

#[test]
fn video_plane_rows_skip_padding() {
    // Two rows of one pixel (3 bytes) with a stride of 5.
    let plane = vec![1, 2, 3, 90, 91, 4, 5, 6, 92];
    assert_eq!(plane_to_rgb(&plane, 5, 1, 2), vec![1, 2, 3, 4, 5, 6]);
    assert_eq!(plane_to_rgb(&plane, 5, 1, 0), Vec::<u8>::new());
}

#[test]
fn video_plane_write_keeps_padding_and_reads_back() {
    let mut plane = vec![1, 2, 3, 90, 91, 4, 5, 6, 92];
    let rgb = vec![10, 11, 12, 13, 14, 15];
    rgb_into_plane(&rgb, &mut plane, 5, 1, 2);
    assert_eq!(plane, vec![10, 11, 12, 90, 91, 13, 14, 15, 92]);
    assert_eq!(plane_to_rgb(&plane, 5, 1, 2), rgb);
}

#[test]
fn video_info_fields() {
    let info = infinishield::video::video_info("Infini", 5, 12, "o.mp4");
    assert_eq!(info.mode, "video-temporal");
    assert_eq!(info.message_bytes, 6);
    assert_eq!(info.intensity, 5);
    assert_eq!(info.keypoints, 12);
    assert_eq!(info.max_capacity, 7);
    assert_eq!((info.width, info.height), (0, 0));
    assert_eq!(info.output_path, "o.mp4");
}
