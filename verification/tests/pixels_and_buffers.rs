use wayland_http::buffer::{buffer_to_release, copy_rows, get_buffer, AttachedBuffer, ShmContents};
use wayland_http::pixel::argb_to_rgba;
use wayland_http::window_manager::{Buffer, WindowError};

#[test]
fn argb_to_rgba_swaps_red_and_blue() {
    let argb = [1u8, 2, 3, 4, 10, 20, 30, 40];
    assert_eq!(argb_to_rgba(&argb), vec![3, 2, 1, 4, 30, 20, 10, 40]);
}

#[test]
fn argb_to_rgba_of_nothing_is_nothing() {
    assert_eq!(argb_to_rgba(&[]), Vec::<u8>::new());
}

#[test]
fn argb_to_rgba_twice_gives_back_the_input() {
    let argb = [9u8, 8, 7, 6, 5, 4, 3, 2, 1, 0, 255, 128];
    let once = argb_to_rgba(&argb);
    assert_eq!(argb_to_rgba(&once), argb.to_vec());
}

fn contents(pool: Vec<u8>, offset: i32, stride: i32, width: i32, height: i32) -> ShmContents {
    ShmContents { pool, offset, stride, width, height }
}

#[test]
fn copy_rows_drops_the_padding_between_rows() {
    // two rows of one pixel each, stride 6, starting at offset 1
    let pool: Vec<u8> = (0u8..16).collect();
    let c = contents(pool, 1, 6, 1, 2);
    assert_eq!(copy_rows(&c), vec![1, 2, 3, 4, 7, 8, 9, 10]);
}

#[test]
fn copy_rows_of_a_packed_buffer_is_one_stretch() {
    let pool: Vec<u8> = (0u8..32).collect();
    let c = contents(pool.clone(), 4, 8, 2, 3);
    assert_eq!(copy_rows(&c), pool[4..28].to_vec());
}

#[test]
fn copy_rows_with_no_rows_is_empty() {
    let c = contents(vec![1, 2, 3], 0, 4, 1, 0);
    assert_eq!(copy_rows(&c), Vec::<u8>::new());
}

#[test]
fn get_buffer_of_an_shm_buffer_gives_its_rows_and_size() {
    let pool: Vec<u8> = (0u8..16).collect();
    let attached = AttachedBuffer::Attached(Some(contents(pool, 0, 8, 1, 2)));
    match get_buffer(&attached) {
        Ok(Buffer::Update { data, size }) => {
            assert_eq!(data, vec![0, 1, 2, 3, 8, 9, 10, 11]);
            assert_eq!(size, (1, 2));
        }
        other => panic!("unexpected {:?}", other),
    }
}

#[test]
fn get_buffer_of_a_removed_buffer_erases() {
    assert!(matches!(get_buffer(&AttachedBuffer::Removed), Ok(Buffer::Erase)));
}

#[test]
fn get_buffer_without_a_buffer_fails() {
    assert!(matches!(get_buffer(&AttachedBuffer::Unset), Err(WindowError::NoSuchBuffer)));
}

#[test]
fn get_buffer_of_a_buffer_outside_shared_memory_fails() {
    assert!(matches!(get_buffer(&AttachedBuffer::Attached(None)), Err(WindowError::NotShmBuffer)));
}

#[test]
fn only_an_attached_buffer_is_released() {
    assert_eq!(buffer_to_release(&Some(Some(7u8))), Some(&7u8));
    assert_eq!(buffer_to_release::<u8>(&Some(None)), None);
    assert_eq!(buffer_to_release::<u8>(&None), None);
}
