# airscreen

A screen-streaming application: one end captures its screen and streams the
frames, the other end receives and shows them.

- `src/` is the verified library (Verus): the frame header and its wire
  form, the frame metrics of both ends, the conversions of captured buffers
  to RGB and to I420, the H.264 encoding step of the QUIC client, the
  packet and stream decisions of the QUIC server, and the start/stop
  decisions and frame scaling of the window.
- `app/` is the program around it: the drawing of the window, capture, networking, logging,
  and the floating-point colour arithmetic of single pixels.
- `tests/` runs the library on concrete frames and headers.
