use image_sieve::image_cache::{CacheBounds, LoadCommand, LoadQueue, Purpose};

fn command(path: &str) -> LoadCommand<u32> {
    LoadCommand { path: String::from(path), width: 100, height: 100, payload: 0 }
}

#[test]
fn current_image_replaces_queued_work() {
    // Two current-image requests in a row: only the second is ever
    // handed to the worker.
    let mut queue: LoadQueue<u32> = LoadQueue::new();
    queue.enqueue(command("a.jpg"), Purpose::CurrentImage);
    queue.enqueue(command("b.jpg"), Purpose::CurrentImage);
    let next = queue.pop_front().unwrap();
    assert_eq!(next.path, "b.jpg");
    assert!(queue.pop_front().is_none());
}

#[test]
fn similar_images_queue_in_order() {
    let mut queue: LoadQueue<u32> = LoadQueue::new();
    queue.enqueue(command("a.jpg"), Purpose::SimilarImage);
    queue.enqueue(command("b.jpg"), Purpose::SimilarImage);
    queue.enqueue(command("c.jpg"), Purpose::SimilarImage);
    assert_eq!(queue.pop_front().unwrap().path, "a.jpg");
    assert_eq!(queue.pop_front().unwrap().path, "b.jpg");
    assert_eq!(queue.pop_front().unwrap().path, "c.jpg");
}

#[test]
fn prefetch_skips_queued_paths() {
    let mut queue: LoadQueue<u32> = LoadQueue::new();
    queue.enqueue(command("a.jpg"), Purpose::SimilarImage);
    queue.enqueue(command("a.jpg"), Purpose::Prefetch);
    queue.enqueue(command("b.jpg"), Purpose::Prefetch);
    queue.enqueue(command("b.jpg"), Purpose::Prefetch);
    assert_eq!(queue.pop_front().unwrap().path, "a.jpg");
    assert_eq!(queue.pop_front().unwrap().path, "b.jpg");
    assert!(queue.pop_front().is_none());
}

#[test]
fn purge_discards_pending_work() {
    let mut queue: LoadQueue<u32> = LoadQueue::new();
    queue.enqueue(command("a.jpg"), Purpose::SimilarImage);
    queue.enqueue(command("b.jpg"), Purpose::Prefetch);
    queue.clear();
    assert!(queue.is_empty());
    assert!(queue.pop_front().is_none());
}

#[test]
fn growing_bounds_invalidate_the_cache() {
    let mut bounds = CacheBounds::new();
    assert!(bounds.restrict_size(800, 600));
    assert_eq!((bounds.max_width, bounds.max_height), (800, 600));
    assert!(!bounds.restrict_size(800, 600));
    assert!(!bounds.restrict_size(400, 300));
    assert_eq!((bounds.max_width, bounds.max_height), (800, 600));
    assert!(bounds.restrict_size(1920, 1080));
    assert_eq!((bounds.max_width, bounds.max_height), (1920, 1080));
}
