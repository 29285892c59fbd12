# rdp_session

The client side of a remote desktop session, verified with [Verus](https://github.com/verus-lang/verus).

The server sends drawing orders, bitmaps, surface commands, palettes and pointers. The library decodes them
and draws them on an image. It also decides what to do about the other messages of a session, and about the
requests of the server for files of a shared directory.

- `src/` is the library. Every function has a contract, and Verus proves that it meets the contract: what it
  returns, what it changes, and that it does not panic. Functions whose names begin with `law_` state what
  holds across several operations.
- `tests/` runs the library on examples.
- `app/` connects the library to the world: it opens files, and it takes decoders for what the library does
  not decode by itself.

| Modules | |
|---|---|
| `cursor`, `error`, `geometry`, `pixel_format`, `color_conversion` | basics |
| `drawing_orders`, `order_fields`, `order_decoding`, `order_laws`, `order_sequence` | drawing orders and their delta encoding |
| `raster`, `line`, `image`, `image_laws` | the image, with the pointer on top of it |
| `palette`, `bitmap_cache`, `bitmap_caching`, `pointer`, `pointer_updates` | what the client keeps for the server |
| `order_rendering`, `order_processing`, `bitmap`, `bitmap_updates`, `surface_commands`, `zstd_stream` | drawing |
| `fast_path_pdu`, `fast_path_update`, `complete_data`, `frame_marker`, `fast_path` | the fast path |
| `server_graphics_update`, `x224` | the slow path |
| `drive`, `drive_paths`, `drive_backend` | the shared directory |

QOI images, Zstandard streams and RemoteFX colours are decoded by the crates `qoi`, `zstd-safe` and `yuv`.
What is assumed of them stands in the doc comments of the functions that call them.
